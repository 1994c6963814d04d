use agentctl::error::Error;
use agentctl::planning::model::{NamedCommand, VerificationProfile};
use agentctl::planning::scope::ProtectedPath;
use agentctl::protocol::CommandSpec;
use agentctl::repository::WorkspaceId;
use agentctl::runtime::experiment::{
    begin_attempt, check_cwd, check_restart, check_timeout, create, event_file_name, evidence_id,
    evidence_start, finish, finished_state, may_use_network, reconcile, resolve_command,
    start_failed, started, summarize, CancellationOutcome, Declaration, ExperimentCommand,
    ExperimentRun, ExperimentState, Found, Liveness, ProcessOutput, Supervision, Watching,
    MAX_TIMEOUT_MS,
};
use agentctl::runtime::experiment_decisions::{
    evaluate_batch, satisfies, tags_match, validate_boundaries, BoundaryAction,
    BoundaryDefinition, BoundaryLimits, EventRow, ExperimentBoundary, MetricComparison, Naming,
};
use agentctl::runtime::experiment_events::{
    bounded, check_checkpoint, check_place, content_hash, decode_line, describe, draft_of,
    ingestion_error, is_finite, metric_name, reads_on, reject_cut, reports_nonfinite,
    validate_common, validate_frame, CheckpointFile, Cut, Draft, EventFrame, EventIngestor,
    ExperimentEventData, ExperimentEventQuery, ExperimentHealthKind, FileFacts, Places, Tag,
    MAX_EVENT_FRAME_BYTES,
};
use agentctl::store::{JournalEntry, Store};

fn message<T: std::fmt::Debug>(r: Result<T, Error>) -> String {
    match r.unwrap_err() {
        Error::Invalid(m) => m,
    }
}

fn workspace() -> WorkspaceId {
    WorkspaceId::for_git_directory("/w/.git")
}

fn empty_store() -> Store {
    Store {
        plans: vec![],
        requests: vec![],
        jobs: vec![],
        experiments: vec![],
        events: vec![],
        decisions: vec![],
        cursors: vec![],
        journal: vec![],
    }
}

fn command() -> CommandSpec {
    CommandSpec {
        program: "cargo".into(),
        args: vec!["bench".into()],
        cwd: ".".into(),
    }
}

fn experiment(hex: &str, created_at_ms: u64, boundaries: Vec<BoundaryDefinition>) -> ExperimentRun {
    create(
        Declaration {
            workspace_id: workspace(),
            hex: hex.into(),
            command: command(),
            project_command_key: None,
            network: true,
            env_passthrough: vec![],
            timeout_ms: 1000,
            created_at_ms,
            decision_boundaries: boundaries,
            boundaries_hash: "hash".into(),
            max_planner_wakeups: 1,
        },
        false,
    )
}

fn threshold(id: &str, metric: &str, comparison: MetricComparison, value: f64) -> BoundaryDefinition {
    BoundaryDefinition {
        boundary_id: id.into(),
        condition: ExperimentBoundary::MetricThreshold {
            metric: metric.into(),
            tags: vec![],
            comparison,
            value: value.to_bits(),
        },
        action: BoundaryAction::RecordOnly,
    }
}

fn metric(sequence: u64, name: &str, value: f64) -> EventFrame {
    EventFrame::Metric {
        sequence,
        timestamp_ms: 1000 + sequence,
        source: "trainer".into(),
        name: name.into(),
        value: value.to_bits(),
        step: None,
        epoch: None,
        index: None,
        unit: None,
        tags: vec![],
    }
}

fn no_file() -> Result<CheckpointFile, String> {
    Err("no checkpoint".into())
}

fn draft(sequence: u64, name: &str, value: f64) -> Draft {
    let line = format!("{{\"type\":\"metric\",\"sequence\":{sequence},\"value\":{value}}}");
    decode_line(
        &line.into_bytes(),
        sequence,
        Ok(metric(sequence, name, value)),
        no_file(),
        (5, 6),
    )
}

fn everything() -> ExperimentEventQuery {
    ExperimentEventQuery {
        attempt: None,
        event_type: None,
        metric_name: None,
        limit: 0,
    }
}

// --- experiments -----------------------------------------------------------

#[test]
fn an_experiment_runs_attempt_after_attempt() {
    let mut run = experiment("ab", 10, vec![]);
    assert_eq!(run.experiment_id, "experiment:ab");
    assert_eq!(run.state, ExperimentState::Created);
    assert_eq!(begin_attempt(&mut run), 1);
    started(&mut run, Some(7), 20);
    assert_eq!(evidence_start(&run), 20);
    let output = ProcessOutput { exit: Some(0), failure: None };
    finish(&mut run, &Supervision::new(), &output, "evidence:x".into(), 30);
    assert_eq!(run.state, ExperimentState::Succeeded);
    assert_eq!(run.attempts[0].pid, Some(7));
    assert_eq!(run.attempts[0].exit_status, Some(0));
    assert_eq!(begin_attempt(&mut run), 2);
    assert_eq!(run.attempts.len(), 2);
    assert_eq!(run.attempts[0].state, ExperimentState::Succeeded);
    start_failed(&mut run, "no such file".into(), 40);
    assert_eq!(run.state, ExperimentState::Failed);
    assert_eq!(run.attempts[1].failure.as_deref(), Some("no such file"));
    assert_eq!(evidence_id(&run.experiment_id, 2), "evidence:experiment:ab-attempt-2");
    assert_eq!(event_file_name(2), "attempt-2-events.jsonl");
}

#[test]
fn cancellation_is_never_guessed() {
    let cancelled = ProcessOutput { exit: None, failure: Some("cancelled".into()) };
    assert_eq!(finished_state(true, &cancelled), ExperimentState::Cancelled);
    assert_eq!(finished_state(false, &cancelled), ExperimentState::Failed);
    let clean = ProcessOutput { exit: Some(0), failure: Some("cancelled".into()) };
    assert_eq!(finished_state(true, &clean), ExperimentState::Failed);
    let done = ProcessOutput { exit: Some(0), failure: None };
    assert_eq!(finished_state(true, &done), ExperimentState::Succeeded);
    let bad = ProcessOutput { exit: Some(1), failure: None };
    assert_eq!(finished_state(false, &bad), ExperimentState::Failed);
    assert!(!ExperimentState::Running.is_terminal());
    assert!(ExperimentState::Interrupted.is_terminal());
}

#[test]
fn a_request_to_stop_is_acted_upon_once() {
    let mut s = Supervision::new();
    assert_eq!(s.watch(false), Watching::Poll);
    assert_eq!(s.watch(true), Watching::Stop);
    assert_eq!(s.watch(true), Watching::Poll);
    let (phase, detail) = s.settle(&Found::Tried(CancellationOutcome::Failed("EPERM".into())));
    assert_eq!(phase, "EXPERIMENT_CANCELLATION_NOT_APPLIED");
    assert_eq!(
        detail,
        "termination failed: EPERM; the observed process exit remains authoritative"
    );
    assert_eq!(s.failure.as_deref(), Some("EPERM"));
    assert!(!s.applied);
    let (phase, _) = s.settle(&Found::Tried(CancellationOutcome::Applied));
    assert_eq!(phase, "EXPERIMENT_CANCELLATION_APPLIED");
    assert!(s.applied);
    let (phase, _) = s.settle(&Found::Exited);
    assert_eq!(phase, "EXPERIMENT_CANCELLATION_NOT_APPLIED");
    s.ingestion_failed("disk full", false);
    assert_eq!(
        s.ingestion_error.as_deref(),
        Some("event ingestion retry pending: disk full")
    );
    s.ingestion_failed("disk full", true);
    assert_eq!(
        s.ingestion_error.as_deref(),
        Some("event ingestion failed: disk full")
    );
}

#[test]
fn evidence_tells_how_an_attempt_ended() {
    let output = ProcessOutput { exit: Some(-2), failure: Some("a \"b\"".into()) };
    assert_eq!(
        summarize("experiment:ab", 3, &output),
        "experiment experiment:ab attempt 3: exit Some(-2), failure Some(\"a \\\"b\\\"\")"
    );
    let output = ProcessOutput { exit: None, failure: None };
    assert_eq!(
        summarize("e", 1, &output),
        "experiment e attempt 1: exit None, failure None"
    );
}

#[test]
fn an_experiment_is_declared_within_bounds() {
    assert!(check_timeout(1).is_ok());
    assert!(check_timeout(MAX_TIMEOUT_MS).is_ok());
    assert_eq!(
        message(check_timeout(0)),
        "experiment timeout_ms must be 1..=2592000000"
    );
    assert!(check_timeout(MAX_TIMEOUT_MS + 1).is_err());
    let commands = vec![NamedCommand { name: "bench".into(), command: command() }];
    let (found, key) =
        resolve_command(&commands, &ExperimentCommand::Project("bench".into())).unwrap();
    assert_eq!(found, command());
    assert_eq!(key.as_deref(), Some("bench"));
    assert_eq!(
        message(resolve_command(&commands, &ExperimentCommand::Project("x".into()))),
        "unknown project command x; declare it under [commands.x] in .agentctl/project.toml"
    );
    let root = vec!["w".to_string()];
    assert!(check_cwd(&vec!["w".into(), "sub".into()], &root).is_ok());
    assert_eq!(
        message(check_cwd(&vec!["ww".into()], &root)),
        "experiment cwd escapes workspace"
    );
    let run = experiment("ab", 1, vec![]);
    assert!(may_use_network(&run, false));
    assert!(!may_use_network(&run, true));
}

#[test]
fn an_interrupted_experiment_is_reconciled_without_guessing() {
    let mut run = experiment("ab", 1, vec![]);
    assert!(!reconcile(&mut run));
    begin_attempt(&mut run);
    started(&mut run, None, 2);
    assert_eq!(
        message(check_restart(&run, &vec![], true)),
        "experiment appears to still be actively supervised by a live controller; cancel it or wait for it to finish, then restart"
    );
    assert!(check_restart(&run, &vec![], false).is_ok());
    assert!(reconcile(&mut run));
    assert_eq!(run.state, ExperimentState::Interrupted);
    assert_eq!(run.attempts[0].state, ExperimentState::Interrupted);
    assert_eq!(
        run.attempts[0].failure.as_deref(),
        Some("controller interrupted; success unproven; no automatic retry")
    );
    assert_eq!(run.attempts[0].exit_status, None);
    run.project_command_key = Some("bench".into());
    assert_eq!(
        message(check_restart(&run, &vec![], false)),
        "SOURCE_DRIFT: project command bench changed or was removed; create a new experiment to revalidate it"
    );
}

#[test]
fn experiments_are_stored_listed_and_cancelled() {
    let w = workspace();
    let mut store = empty_store();
    let young = experiment("aa", 20, vec![]);
    let mut old = experiment("bb", 10, vec![]);
    store.save_experiment(&w, &young, "EXPERIMENT_CREATED");
    store.save_experiment(&w, &old, "EXPERIMENT_CREATED");
    assert_eq!(store.experiments.len(), 2);
    let list = store.experiment_list(&w, &vec!["experiment:bb".into()]);
    assert_eq!(list[0].run.experiment_id, "experiment:bb");
    assert_eq!(list[0].liveness, Liveness::Live);
    assert_eq!(list[1].liveness, Liveness::Unknown);
    assert_eq!(
        message(store.experiment_cancel(&w, "experiment:bb")),
        "only a running experiment can be cancelled"
    );
    assert_eq!(
        message(store.experiment_cancel(&w, "experiment:cc")),
        "experiment not found"
    );
    begin_attempt(&mut old);
    store.save_experiment(&w, &old, "EXPERIMENT_ATTEMPT_STARTED");
    assert_eq!(store.experiments.len(), 2);
    assert!(!store.cancel_requested("experiment:bb"));
    store.experiment_cancel(&w, "experiment:bb").unwrap();
    assert!(store.cancel_requested("experiment:bb"));
    match store.journal.last().unwrap() {
        JournalEntry::Experiment { phase, .. } => {
            assert_eq!(phase, "EXPERIMENT_CANCELLATION_REQUESTED")
        }
        other => panic!("{other:?}"),
    }
    store.clear_cancellation(&w, "experiment:bb").unwrap();
    assert!(!store.cancel_requested("experiment:bb"));
    assert!(store.clear_cancellation(&w, "experiment:cc").is_err());
    let other = WorkspaceId::for_git_directory("/other/.git");
    assert!(store.experiment_status(&other, "experiment:bb", false).is_none());
    assert!(store.experiment_list(&other, &vec![]).is_empty());
    let seen = store.experiment_status(&w, "experiment:bb", true).unwrap();
    assert_eq!(seen.run.state, ExperimentState::Running);
    assert_eq!(seen.events.event_count, 0);
}

// --- events ----------------------------------------------------------------

#[test]
fn hashes_are_blake3() {
    assert_eq!(
        content_hash(&vec![]),
        "blake3:af1349b9f5f9a1a6a0404dea36dcc9499bcb25c9adc112b7cc9a93cae41f3262"
    );
    assert_eq!(
        content_hash(&b"abc".to_vec()),
        "blake3:6437b3ac38465133ffb63b75273a8db548c558465d79db03fd359c6cd5bd9d85"
    );
}

#[test]
fn lines_are_bounded() {
    assert!(bounded("ok", "name", 2).is_ok());
    assert_eq!(message(bounded(" \t", "name", 9)), "name cannot be blank");
    assert_eq!(message(bounded("abc", "name", 2)), "name exceeds 2 bytes");
    assert_eq!(
        message(bounded("a\u{7}", "name", 9)),
        "name contains control characters"
    );
    assert!(metric_name("loss/train-1.x").is_ok());
    assert!(metric_name("_x").is_ok());
    assert_eq!(
        message(metric_name(".x")),
        "metric name must start with an ASCII letter, digit, or '_'"
    );
    assert_eq!(
        message(metric_name("lé")),
        "metric name may contain only ASCII letters, digits, '_', '.', '/', and '-'"
    );
    assert_eq!(
        message(validate_common(1 << 63, 0, "s")),
        "event sequence exceeds SQLite range"
    );
    assert_eq!(
        message(validate_common(0, u64::MAX, "s")),
        "event timestamp exceeds SQLite range"
    );
    assert_eq!(message(validate_common(0, 0, "")), "event source cannot be blank");
}

#[test]
fn finite_numbers_are_told_by_their_bits() {
    for x in [0.0f64, -0.0, 1.5, -3e300, f64::MIN_POSITIVE, f64::MAX, 5e-324] {
        assert!(is_finite(x.to_bits()), "{x}");
    }
    for x in [f64::NAN, f64::INFINITY, f64::NEG_INFINITY] {
        assert!(!is_finite(x.to_bits()), "{x}");
    }
}

#[test]
fn comparisons_by_bits_are_those_of_numbers() {
    let values = [
        0.0f64,
        -0.0,
        1.0,
        -1.0,
        1.5,
        -1.5,
        1e300,
        -1e300,
        5e-324,
        -5e-324,
        f64::INFINITY,
        f64::NEG_INFINITY,
        f64::NAN,
    ];
    for a in values {
        for b in values {
            let bits = |c| satisfies(c, a.to_bits(), b.to_bits());
            assert_eq!(bits(MetricComparison::GreaterThan), a > b, "{a} {b}");
            assert_eq!(bits(MetricComparison::GreaterThanOrEqual), a >= b, "{a} {b}");
            assert_eq!(bits(MetricComparison::LessThan), a < b, "{a} {b}");
            assert_eq!(bits(MetricComparison::LessThanOrEqual), a <= b, "{a} {b}");
            assert_eq!(bits(MetricComparison::Equal), a == b, "{a} {b}");
        }
    }
}

#[test]
fn frames_are_checked() {
    let ok = validate_frame(metric(3, "loss", 0.5), no_file()).unwrap();
    assert_eq!(ok.sequence, 3);
    assert_eq!(ok.event.event_type(), "METRIC");
    assert_eq!(ok.event.metric_name(), Some("loss"));
    assert_eq!(
        message(validate_frame(metric(3, "loss", f64::NAN), no_file())),
        "metric value must be finite"
    );
    let tagged = |n: usize, key: &str| EventFrame::Metric {
        sequence: 1,
        timestamp_ms: 1,
        source: "s".into(),
        name: "m".into(),
        value: 0,
        step: None,
        epoch: None,
        index: None,
        unit: None,
        tags: (0..n)
            .map(|i| Tag { key: format!("{key}{i}"), value: "v".into() })
            .collect(),
    };
    assert!(validate_frame(tagged(16, "k"), no_file()).is_ok());
    assert_eq!(
        message(validate_frame(tagged(17, "k"), no_file())),
        "metric tags exceed 16 entries"
    );
    assert_eq!(
        message(validate_frame(tagged(1, &"k".repeat(64)), no_file())),
        "metric tag key exceeds 64 bytes"
    );
    let health = |kind, m: Option<&str>| EventFrame::Health {
        sequence: 1,
        timestamp_ms: 1,
        source: "s".into(),
        kind,
        message: m.map(str::to_owned),
    };
    assert!(validate_frame(health(ExperimentHealthKind::Warning, Some("hot")), no_file()).is_ok());
    assert_eq!(
        message(validate_frame(
            health(ExperimentHealthKind::IngestionError, None),
            no_file()
        )),
        "controller-reserved health kind"
    );
    assert_eq!(
        message(validate_frame(
            health(ExperimentHealthKind::Error, Some("")),
            no_file()
        )),
        "health message cannot be blank"
    );
    let status = EventFrame::Status {
        sequence: 1,
        timestamp_ms: 1,
        source: "s".into(),
        status: "warm".into(),
        message: None,
    };
    assert_eq!(
        validate_frame(status, no_file()).unwrap().event.event_type(),
        "PROCESS_STATUS"
    );
    let checkpoint = || EventFrame::Checkpoint {
        sequence: 1,
        timestamp_ms: 1,
        source: "s".into(),
        name: "best".into(),
        path: "out/best".into(),
        step: Some(9),
        epoch: None,
    };
    assert_eq!(message(validate_frame(checkpoint(), no_file())), "no checkpoint");
    let file = CheckpointFile {
        byte_size: 3,
        modified_at_ms: None,
        content_hash: Some("h".into()),
    };
    match validate_frame(checkpoint(), Ok(file)).unwrap().event {
        ExperimentEventData::Checkpoint { path, byte_size, step, content_hash, .. } => {
            assert_eq!(path, "out/best");
            assert_eq!(byte_size, 3);
            assert_eq!(step, Some(9));
            assert_eq!(content_hash.as_deref(), Some("h"));
        }
        other => panic!("{other:?}"),
    }
}

#[test]
fn checkpoints_stay_out_of_administrative_storage() {
    let rules = vec![ProtectedPath {
        path: "secret".into(),
        deny_read: true,
        deny_write: true,
    }];
    assert!(check_checkpoint("best", "out/best", &None, &rules).is_ok());
    assert_eq!(
        message(check_checkpoint("best", "a/.git/x", &None, &rules)),
        "checkpoint path may not enter Git or agentctl administrative storage"
    );
    assert!(check_checkpoint("best", ".agentctl", &None, &rules).is_err());
    assert_eq!(
        message(check_checkpoint("best", "secret/x", &None, &rules)),
        "checkpoint path intersects protected path secret"
    );
    assert!(check_checkpoint("best", "secrets/x", &None, &rules).is_ok());
    assert_eq!(
        message(check_checkpoint("best", &"a".repeat(1025), &None, &rules)),
        "checkpoint path exceeds 1024 bytes"
    );
    assert_eq!(
        message(check_checkpoint("best", "/abs", &Some("relative".into()), &rules)),
        "relative"
    );
    let parts = |s: &str| s.split('/').map(str::to_owned).collect::<Vec<_>>();
    let places = |canonical: &str| Places {
        canonical: parts(canonical),
        root: parts("w"),
        administrative: vec![parts("w/.git"), parts("w/.agentctl")],
        protected: vec![Some(parts("w/hidden"))],
    };
    assert!(check_place(&places("w/out"), &rules).is_ok());
    assert_eq!(
        message(check_place(&places("x/out"), &rules)),
        "checkpoint path escapes workspace"
    );
    assert_eq!(
        message(check_place(&places("w/.git/x"), &rules)),
        "checkpoint path resolves into Git or agentctl administrative storage"
    );
    assert_eq!(
        message(check_place(&places("w/hidden"), &rules)),
        "checkpoint path resolves into protected path secret"
    );
}

#[test]
fn a_checkpoint_that_changed_while_it_was_read_has_no_hash() {
    let facts = |unchanged: bool, byte_size: u64| FileFacts {
        is_file: true,
        byte_size,
        modified_at_ms: Some(4),
        content: b"abc".to_vec(),
        unchanged,
    };
    assert_eq!(
        describe(&facts(true, 3)).unwrap().content_hash.as_deref(),
        Some("blake3:6437b3ac38465133ffb63b75273a8db548c558465d79db03fd359c6cd5bd9d85")
    );
    assert_eq!(describe(&facts(false, 3)).unwrap().content_hash, None);
    assert_eq!(describe(&facts(true, 64 * 1024 * 1024 + 1)).unwrap().content_hash, None);
    let mut directory = facts(true, 3);
    directory.is_file = false;
    assert_eq!(
        message(describe(&directory)),
        "checkpoint path must name a regular file"
    );
}

#[test]
fn rejections_are_bounded_and_name_their_line() {
    let d = ingestion_error(1, &"é".repeat(300), false, 9);
    assert_eq!(d.channel, "INGESTION");
    assert_eq!(d.source, "agentctl");
    assert_eq!(d.source_sequence, 1);
    assert_eq!(
        d.frame_hash,
        format!("blake3:{}", blake3::hash(&1u64.to_le_bytes()).to_hex())
    );
    match d.event {
        ExperimentEventData::Health { kind, message } => {
            assert_eq!(kind, ExperimentHealthKind::IngestionError);
            assert_eq!(message.unwrap(), "é".repeat(256));
        }
        other => panic!("{other:?}"),
    }
    let odd = format!("a{}", "é".repeat(300));
    match ingestion_error(2, &odd, true, 9).event {
        ExperimentEventData::Health { kind, message } => {
            assert_eq!(kind, ExperimentHealthKind::NonfiniteMetric);
            assert_eq!(message.unwrap().len(), 511);
        }
        other => panic!("{other:?}"),
    }
}

#[test]
fn a_line_becomes_an_event_or_a_rejection() {
    let good = draft(4, "loss", 0.25);
    assert_eq!(good.channel, "EVENT_FILE");
    assert_eq!(good.source_sequence, 4);
    assert_eq!(good.observed_at_ms, 5);
    assert_eq!(good.timestamp_ms, 1004);
    let not_json = decode_line(
        &b"{oops".to_vec(),
        7,
        Err("unused".into()),
        no_file(),
        (5, 6),
    );
    assert_eq!(not_json.channel, "INGESTION");
    assert_eq!(not_json.timestamp_ms, 6);
    match &not_json.event {
        ExperimentEventData::Health { kind, message } => {
            assert_eq!(*kind, ExperimentHealthKind::IngestionError);
            assert!(message
                .as_deref()
                .unwrap()
                .starts_with("rejected event frame: key must be a string"));
        }
        other => panic!("{other:?}"),
    }
    let nan = decode_line(
        &b"{\"type\":\"metric\",\"value\":\"NaN\"}".to_vec(),
        8,
        Err("invalid type".into()),
        no_file(),
        (5, 6),
    );
    match &nan.event {
        ExperimentEventData::Health { kind, message } => {
            assert_eq!(*kind, ExperimentHealthKind::NonfiniteMetric);
            assert_eq!(
                message.as_deref(),
                Some("rejected event frame: invalid type")
            );
        }
        other => panic!("{other:?}"),
    }
    let refused = draft_of(
        9,
        &Ok(false),
        Ok(metric(9, "", 1.0)),
        no_file(),
        (5, 6),
        &vec![1],
        &vec![2],
    );
    assert_eq!(refused.frame_hash, "blake3:02");
    match &refused.event {
        ExperimentEventData::Health { message, .. } => assert_eq!(
            message.as_deref(),
            Some("rejected event frame: metric name cannot be blank")
        ),
        other => panic!("{other:?}"),
    }
    let s = |t: &str| Some(t.to_string());
    assert!(reports_nonfinite(&s("metric"), &s("+Inf"), &None));
    assert!(reports_nonfinite(&s("metric"), &None, &Some(false)));
    assert!(!reports_nonfinite(&s("metric"), &None, &Some(true)));
    assert!(!reports_nonfinite(&s("health"), &s("NaN"), &None));
}

#[test]
fn a_stream_is_cut_into_lines_whatever_the_chunks() {
    let mut bytes = b"one\n\ntwo\n".to_vec();
    bytes.extend(vec![b'x'; MAX_EVENT_FRAME_BYTES + 5]);
    bytes.extend(b"\nthree\nrest");
    let mut whole = EventIngestor::new();
    let at_once = whole.feed(&bytes);
    let mut pieces = EventIngestor::new();
    let mut collected = vec![];
    for chunk in bytes.chunks(7) {
        collected.extend(pieces.feed(chunk));
    }
    assert_eq!(at_once, collected);
    assert_eq!(
        at_once,
        [
            Cut::Line { number: 1, bytes: b"one".to_vec() },
            Cut::Empty { number: 2 },
            Cut::Line { number: 3, bytes: b"two".to_vec() },
            Cut::Oversize { number: 4 },
            Cut::Line { number: 5, bytes: b"three".to_vec() },
        ]
    );
    assert_eq!(whole.end(), Some(Cut::Partial { number: 6 }));
    assert_eq!(whole.end(), None);
    let said = |cut: &Cut| match reject_cut(cut, 1).unwrap().event {
        ExperimentEventData::Health { message, .. } => message.unwrap(),
        other => panic!("{other:?}"),
    };
    assert!(reject_cut(&at_once[0], 1).is_none());
    assert_eq!(said(&at_once[1]), "rejected empty event frame");
    assert_eq!(said(&at_once[3]), "rejected event frame larger than 65536 bytes");
    assert_eq!(
        said(&Cut::Partial { number: 6 }),
        "rejected partial event frame at process exit"
    );
    assert!(reads_on(0, 0));
    assert!(!reads_on(256 * 1024, 0));
    assert!(!reads_on(0, 512));
}

#[test]
fn a_sequence_is_recorded_once_and_contradictions_are_told() {
    let w = workspace();
    let mut store = empty_store();
    let first = vec![draft(1, "loss", 1.0), draft(2, "loss", 2.0)];
    assert_eq!(store.persist(&w, "experiment:ab", 1, &first, 9).unwrap(), 2);
    assert_eq!(store.persist(&w, "experiment:ab", 1, &first, 9).unwrap(), 0);
    assert_eq!(store.persist(&w, "experiment:ab", 2, &first, 9).unwrap(), 2);
    let conflict = vec![draft(2, "loss", 3.0)];
    assert_eq!(store.persist(&w, "experiment:ab", 1, &conflict, 9).unwrap(), 1);
    let events = store
        .experiment_events(&w, "experiment:ab", &everything())
        .unwrap();
    assert_eq!(events.len(), 5);
    assert_eq!(events[0].arrival_sequence, 1);
    assert_eq!(events[4].channel, "INGESTION");
    match &events[4].event {
        ExperimentEventData::Health { message, .. } => assert_eq!(
            message.as_deref(),
            Some("rejected conflicting replay for an existing source sequence")
        ),
        other => panic!("{other:?}"),
    }
    let mut unstorable = vec![draft(7, "loss", 1.0)];
    unstorable[0].observed_at_ms = u64::MAX;
    assert_eq!(
        message(store.persist(&w, "experiment:ab", 1, &unstorable, 9)),
        "out of range integral type conversion attempted"
    );
    assert_eq!(
        message(store.persist(&w, "experiment:ab", 1, &conflict, u64::MAX)),
        "out of range integral type conversion attempted"
    );
    assert_eq!(store.events.len(), 5);
}

#[test]
fn events_are_queried_newest_last() {
    let w = workspace();
    let mut store = empty_store();
    let drafts: Vec<Draft> = (1..=5).map(|i| draft(i, "loss", i as f64)).collect();
    store.persist(&w, "experiment:ab", 1, &drafts, 9).unwrap();
    store
        .persist(&w, "experiment:ab", 2, &vec![draft(1, "acc", 0.5)], 9)
        .unwrap();
    let query = |limit: usize, name: Option<&str>, kind: Option<&str>, attempt: Option<u32>| {
        ExperimentEventQuery {
            attempt,
            event_type: kind.map(str::to_owned),
            metric_name: name.map(str::to_owned),
            limit,
        }
    };
    let sequences = |q: &ExperimentEventQuery| -> Vec<i64> {
        store
            .experiment_events(&w, "experiment:ab", q)
            .unwrap()
            .iter()
            .map(|e| e.arrival_sequence)
            .collect()
    };
    assert_eq!(sequences(&query(2, None, None, None)), [5, 6]);
    assert_eq!(sequences(&query(0, Some("loss"), None, None)), [1, 2, 3, 4, 5]);
    assert_eq!(sequences(&query(0, None, Some("METRIC"), Some(2))), [6]);
    assert!(sequences(&query(0, Some("loss"), Some("CHECKPOINT"), None)).is_empty());
    let refused = |q: ExperimentEventQuery| message(store.experiment_events(&w, "x", &q));
    assert_eq!(
        refused(query(10_001, None, None, None)),
        "event query limit must be at most 10000"
    );
    assert_eq!(refused(query(1, None, None, Some(0))), "attempt must be at least 1");
    assert_eq!(
        refused(query(1, None, Some("OTHER"), None)),
        "unknown experiment event type"
    );
    let summary = store.experiment_event_summary(&w, "experiment:ab");
    assert_eq!(summary.event_count, 6);
    assert_eq!(summary.ingestion_errors, 0);
    assert_eq!(summary.last_event_timestamp_ms, Some(1001));
    let latest: Vec<(&str, f64)> = summary
        .latest_metrics
        .iter()
        .map(|m| (m.name.as_str(), f64::from_bits(m.value)))
        .collect();
    assert_eq!(latest, [("acc", 0.5), ("loss", 5.0)]);
    assert_eq!(summary.latest_checkpoint, None);
}

// --- decisions -------------------------------------------------------------

#[test]
fn an_empty_selector_matches_only_an_untagged_series() {
    let tag = |k: &str, v: &str| Tag { key: k.into(), value: v.into() };
    assert!(tags_match(&vec![], &vec![]));
    assert!(!tags_match(&vec![], &vec![tag("phase", "train")]));
    assert!(tags_match(
        &vec![tag("phase", "train")],
        &vec![tag("phase", "train"), tag("host", "a")]
    ));
    assert!(!tags_match(
        &vec![tag("phase", "train")],
        &vec![tag("phase", "val")]
    ));
    assert!(!tags_match(&vec![tag("phase", "train")], &vec![]));
}

#[test]
fn boundaries_are_declared_once_and_completely() {
    let profiles = vec![VerificationProfile {
        name: "unit".into(),
        description: "d".into(),
        command_refs: vec![],
    }];
    let limits = BoundaryLimits { max_boundaries: 2, max_wakeups: 3 };
    let loss = || threshold("b", "loss", MetricComparison::LessThan, 0.1);
    let check = |boundaries: Vec<BoundaryDefinition>, wakeups: u32| {
        let rules = boundaries.iter().map(|_| None).collect();
        validate_boundaries(&boundaries, &profiles, &rules, wakeups, &limits)
    };
    assert!(check(vec![loss()], 0).is_ok());
    assert_eq!(message(check(vec![loss(), loss()], 0)), "duplicate boundary_id b");
    assert_eq!(
        message(check(vec![loss(), loss(), loss()], 0)),
        "experiment declares more than 2 decision boundaries"
    );
    let mut other = loss();
    other.condition = ExperimentBoundary::Other("ProcessExit".into());
    assert!(message(check(vec![other], 0)).ends_with("ProcessExit is not decided automatically"));
    let mut review = loss();
    review.action = BoundaryAction::RequirePlannerReview { verification_ref: "unit".into() };
    assert_eq!(
        message(check(vec![review.copy()], 0)),
        "experiment declares a planner-review boundary; max_planner_wakeups must be 1..=3"
    );
    assert!(check(vec![review.copy()], 3).is_ok());
    review.action = BoundaryAction::RequirePlannerReview { verification_ref: "x".into() };
    assert_eq!(
        message(check(vec![review], 1)),
        "boundary b: verification_ref x is not defined in project policy"
    );
    let ruled = validate_boundaries(
        &vec![loss()],
        &profiles,
        &vec![Some("no id".into())],
        0,
        &limits,
    );
    assert_eq!(message(ruled), "no id");
}

#[test]
fn a_boundary_fires_once_and_evaluation_is_idempotent() {
    let w = workspace();
    let mut store = empty_store();
    let run = experiment(
        "ab",
        1,
        vec![
            threshold("low", "loss", MetricComparison::LessThan, 1.0),
            threshold("high", "loss", MetricComparison::GreaterThan, 10.0),
        ],
    );
    store.save_experiment(&w, &run, "EXPERIMENT_CREATED");
    let values = [5.0, 0.5, 0.25, 20.0];
    let drafts: Vec<Draft> = values
        .iter()
        .enumerate()
        .map(|(i, v)| draft(i as u64 + 1, "loss", *v))
        .collect();
    store.persist(&w, &run.experiment_id, 1, &drafts, 9).unwrap();
    let mut fired = store.decided(&run.experiment_id, 1);
    assert!(fired.is_empty());
    let found = store.evaluate_next(&w, &run, 1, &mut fired).unwrap().unwrap();
    assert_eq!(found.rows.len(), 4);
    assert!(!found.more);
    assert_eq!(found.new_cursor, 4);
    let pairs: Vec<(usize, usize)> = found.fired.iter().map(|f| (f.boundary, f.row)).collect();
    assert_eq!(pairs, [(0, 1), (1, 3)]);
    assert_eq!(fired, ["low", "high"]);
    let namings: Vec<Naming> = found
        .fired
        .iter()
        .map(|f| Naming {
            hex: format!("{:02x}", f.boundary),
            observed: f64::from_bits(found.rows[f.row].value).to_string(),
            tags: "{}".into(),
        })
        .collect();
    store.persist_batch(
        &w,
        &run,
        1,
        found.new_cursor,
        &found.fired,
        &found.rows,
        &namings,
        99,
    );
    let decisions = store.experiment_decisions(&w, &run.experiment_id);
    assert_eq!(decisions.len(), 2);
    assert_eq!(decisions[0].decision_id, "decision:00");
    assert_eq!(decisions[0].triggering_event_sequence, 2);
    assert_eq!(f64::from_bits(decisions[0].observed_value), 0.5);
    assert_eq!(decisions[0].requires_planner(), None);
    match store.journal.last().unwrap() {
        JournalEntry::Experiment { detail, .. } => {
            assert_eq!(detail, "boundary high attempt 1: loss observed 20 tags={}")
        }
        other => panic!("{other:?}"),
    }
    assert_eq!(decisions[1].triggering_event_sequence, 4);
    let arrived: Vec<i64> = store.events.iter().map(|e| e.event.arrival_sequence).collect();
    assert_eq!(arrived, [1, 2, 3, 4]);
    // Nothing is left to evaluate, and what fired does not fire again.
    assert!(store.evaluate_next(&w, &run, 1, &mut fired).unwrap().is_none());
    store.cursors.clear();
    let again = store.evaluate_next(&w, &run, 1, &mut fired).unwrap().unwrap();
    assert!(again.fired.is_empty());
    // A batch that was recorded already is recorded again without decisions.
    store.persist_batch(
        &w,
        &run,
        1,
        4,
        &found.fired,
        &found.rows,
        &namings,
        100,
    );
    assert_eq!(store.decisions.len(), 2);
    assert_eq!(store.load_cursor(&run, 1).unwrap(), 4);
    assert_eq!(store.load_cursor(&run, 2).unwrap(), 0);
    // Events that arrive later decide nothing that is decided, and one more
    // evaluation without new events finds nothing.
    store.persist(&w, &run.experiment_id, 1, &vec![draft(9, "loss", 0.1)], 9).unwrap();
    let mut known = store.decided(&run.experiment_id, 1);
    let late = store.evaluate_next(&w, &run, 1, &mut known).unwrap().unwrap();
    assert_eq!(late.new_cursor, 5);
    assert!(late.fired.is_empty());
    store.persist_batch(&w, &run, 1, 5, &late.fired, &late.rows, &vec![], 101);
    assert_eq!(store.decisions.len(), 2);
    assert_eq!(store.decisions[0].decision.triggering_event_sequence, 2);
    assert!(store.evaluate_next(&w, &run, 1, &mut known).unwrap().is_none());
    store.cursors[0].cursor.boundaries_hash = "other".into();
    assert_eq!(
        message(store.evaluate_next(&w, &run, 1, &mut fired)),
        "experiment decision cursor boundaries_hash no longer matches the frozen declaration"
    );
    let summary = store.experiment_boundaries(&w, &run.experiment_id).unwrap();
    assert_eq!(summary.decision_boundaries.len(), 2);
    assert_eq!(summary.boundaries_hash, "hash");
    assert_eq!(
        message(store.experiment_boundaries(&w, "experiment:none")),
        "experiment not found"
    );
}

#[test]
fn experiments_are_told() {
    let mut run = experiment("ab", 1, vec![]);
    run.command.args = vec!["a b".into(), "\"q\"".into()];
    assert_eq!(
        agentctl::runtime::experiment_cli::human_run(&run),
        "experiment:ab  Created  cargo [\"a b\", \"\\\"q\\\"\"]  attempts=0  pid=None  exit=None"
    );
    begin_attempt(&mut run);
    started(&mut run, Some(7), 2);
    let mut store = empty_store();
    store.save_experiment(&workspace(), &run, "EXPERIMENT_STARTED");
    let seen = store.experiment_status(&workspace(), "experiment:ab", true).unwrap();
    assert_eq!(
        agentctl::runtime::experiment_cli::human_observation(&seen),
        "experiment:ab  Running  cargo [\"a b\", \"\\\"q\\\"\"]  attempts=1  pid=Some(7)  exit=None  liveness=Live  events=0  ingestion_errors=0"
    );
}

#[test]
fn evaluation_does_not_depend_on_batches() {
    let boundaries = vec![
        threshold("low", "loss", MetricComparison::LessThan, 1.0),
        threshold("high", "loss", MetricComparison::GreaterThan, 10.0),
    ];
    let rows = |values: &[f64]| -> Vec<EventRow> {
        values
            .iter()
            .enumerate()
            .map(|(i, v)| EventRow {
                arrival_sequence: i as i64 + 1,
                is_metric: true,
                metric_name: "loss".into(),
                value: v.to_bits(),
                tags: vec![],
            })
            .collect()
    };
    let values = [5.0, 0.5, f64::NAN, 20.0, 0.25];
    let mut known = vec![];
    let whole: Vec<(usize, usize)> = evaluate_batch(&boundaries, &rows(&values), &mut known)
        .iter()
        .map(|f| (f.boundary, f.row))
        .collect();
    assert_eq!(whole, [(0, 1), (1, 3)]);
    for cut in 0..=values.len() {
        let mut fired = vec![];
        let mut parted = vec![];
        for (from, part) in [(0, &values[..cut]), (cut, &values[cut..])] {
            for f in evaluate_batch(&boundaries, &rows(part), &mut fired) {
                parted.push((f.boundary, f.row + from));
            }
        }
        assert_eq!(parted, whole);
        assert_eq!(fired, known);
    }
}
