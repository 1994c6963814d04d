use agentctl::error::Error;
use agentctl::graph::GraphGeneration;
use agentctl::planning::model::{PlanState, ProjectPolicy, SourceStateRef, VerificationProfile};
use agentctl::planning::scope::ScopePath;
use agentctl::protocol::{
    AgentRole, JobState, TaskPacket, TaskState, VerificationDecision, VerificationPacket,
    VerificationRequirements, VerificationTarget,
};
use agentctl::runtime::acceptance::{
    accept, captured_summary, check_directory, check_indexed, completed_verifier, correction,
    executor_of, judge, pending_task, recover, required_commands, same_check_policy, state_after,
    stop_check, summarize_check, take_check, to_executing, verifying, CapturedWork, CheckOutcome,
    IssuedInput, Judged, ReportedFailure, ReportedResult, StoredJob, Verifying,
};
use agentctl::runtime::attempt::{
    after_launch, bounded_input, check_planned, failed_job, finish_job, finished, issued_visibility, name_exit,
    read_exchange, rights, take_plan, take_proof, take_result, Exchange, Fault, Interruption,
    ReplyFacts, ResultIdentity, Watch,
};
use agentctl::runtime::branch::{
    branch_capture, branch_stops, check_claim, check_claimed, check_launch, check_recovery, claim,
    is_abandoned, kept_worktrees, may_serialize, next_branch, reconciled, serialize, withdrawn,
    BranchAuthority, ClaimFacts, ClaimRule, LaunchFacts,
};
use agentctl::runtime::concurrency::{
    revalidate_semantic, Compatibility, CompatibilityDecision, CompatibilityReason, SinceIssue,
    Touched,
};
use agentctl::runtime::config::{
    key_of, name_of, ConcurrencyConfig, ConfigFacts, ContextConfig, ContextVisibility,
    NamedProvider, ProviderConfig, RuntimeConfig,
};
use agentctl::runtime::credentials::{AuthMode, Authentication};
use agentctl::runtime::context::{
    subject_key, BaseRef, ContextDecision, ContextLedger, ContextResolution, DecisionKind,
    DeltaRef, ItemOutcome, ItemResolution, LedgerState, Verdict,
};
use agentctl::runtime::dispatch::{
    exhausted, fall_back, provider_failure, retry_safe, same_policy, Attempted, Dispatch, Failure,
    Next,
};
use agentctl::runtime::reconcile::reconciliation_chain;
use agentctl::runtime::record::{
    list_executors, AcceptedTask, BatchLaunchAuthority, LedgerEntry, OutcomeClass, PendingTask,
    ReconciliationIntent, RunRecord, RunState, RuntimeJob, RuntimeJobState,
};
use agentctl::runtime::relay::{
    allowance, approve, approved_budget, budget, check_approval, check_decidable, check_deltas, check_open,
    check_request, check_resolved, decided_task, deny, go_on, item_kinds, phase_of, record_round,
    relay_state,
    replans, report_subject, revalidate, widened, AdditionFacts, ApprovalFacts, Relay,
};
use agentctl::runtime::resolve::{delta, verdict};
use agentctl::runtime::run::{
    cancel, check_discard, check_ownership, check_replace, check_restore, check_restored, complete,
    discard, enter, find_discardable, goes_on, no_history, record_cancelled, recorded_source,
    refuse_adoption, settle, take_up, tasks_to_stop,
    unchanged_since_recorded, Cancelling, CapturedResult, Entry, Stopping,
};
use agentctl::runtime::schedule::{
    abandoned, check_interrupted, check_rounds, count_relaunch, interrupted, needs_refresh,
    say_relaunch,
};
use agentctl::runtime::worktree::{
    check_machine_state, check_materialized, committed_head, directory_name, identity, lies_inside,
    materialize, worktree_name,
};
use agentctl::manifest::{SuppliedKind, SuppliedSource};
use agentctl::source::{ArtifactRef, FileEntry, FileState, IgnoredEntry, IgnoredFile, SourceSnapshot};
use agentctl::store::TaskStatus;

fn message<T: std::fmt::Debug>(r: Result<T, Error>) -> String {
    match r.unwrap_err() {
        Error::Invalid(m) => m,
    }
}

fn artifact(hash: &str) -> ArtifactRef {
    ArtifactRef { hash: hash.into(), bytes: 1 }
}

fn strings(list: &[&str]) -> Vec<String> {
    list.iter().map(|s| s.to_string()).collect()
}

fn dir(path: &str) -> ScopePath {
    ScopePath::Directory { path: path.into() }
}

fn run() -> RunRecord {
    RunRecord {
        engineering_session: Some("session".into()),
        plan_id: "plan:a".into(),
        workspace_id: "w".into(),
        state: RunState::Running,
        baseline: artifact("base"),
        expected: artifact("now"),
        verified: None,
        policy_hash: "policy".into(),
        accepted: vec![],
        pending: None,
        branches: vec![],
        batch_authority: None,
        reconciliation: None,
        reason: None,
        correction_round: 0,
        context: vec![],
        executor_relaunches: vec![],
        refused: None,
    }
}

fn packet(decision: VerificationDecision) -> VerificationPacket {
    VerificationPacket {
        verifier_job_id: "runtime:v".into(),
        target: VerificationTarget::Packet {
            task_id: "task:a".into(),
            executor_job_id: "runtime:e".into(),
        },
        decision,
        evidence: strings(&["evidence:1"]),
        rest: String::new(),
    }
}

fn pending(task: &str) -> PendingTask {
    PendingTask {
        task_id: task.into(),
        executor: "runtime:e".into(),
        before: artifact("before"),
        after: artifact("after"),
        diff: artifact("diff"),
        evidence: strings(&["evidence:1"]),
        verifier: None,
        proof: None,
        execution_workspace: None,
        compatibility: vec![],
        ontology_generation: None,
        reconciled_from: None,
    }
}

fn job(id: &str, role: AgentRole, state: RuntimeJobState) -> RuntimeJob {
    RuntimeJob {
        job_id: id.into(),
        session_id: "s".into(),
        role,
        plan_id: Some("plan:a".into()),
        task_id: Some("task:a".into()),
        workspace_id: "w".into(),
        state,
        input: artifact("input"),
        output: None,
        reported_verification: None,
        context_request: None,
        context_manifest: None,
        created_at_ms: 1,
        failure: None,
        failure_class: None,
    }
}

fn status(task: &str, state: TaskState) -> TaskStatus {
    TaskStatus { task_id: task.into(), state }
}

fn provider(class: OutcomeClass, detail: &str) -> Failure {
    Failure::Provider { class, detail: detail.into() }
}

// --- dispatch --------------------------------------------------------------

#[test]
fn attempts_are_retried_and_fall_back_within_bounds() {
    let mut d = Dispatch::new("a", &strings(&["b", "c"]), 1);
    assert_eq!(d.routes, ["a", "b"]);
    let timed_out = || {
        Attempted::Failed(provider(OutcomeClass::RetryableProviderFailure, "timed out"))
    };
    assert_eq!(d.settle(timed_out(), true), Next::Retry { retry: 1 });
    assert_eq!(d.settle(timed_out(), true), Next::Retry { retry: 2 });
    assert_eq!(
        d.settle(timed_out(), true),
        Next::Fail(provider(
            OutcomeClass::RetryableProviderFailure,
            "timed out (after 2 automatic retries)"
        ))
    );
    let mut d = Dispatch::new("a", &strings(&["b"]), 4);
    let gone = || Attempted::Failed(Failure::Unavailable("not installed".into()));
    assert_eq!(d.settle(gone(), false), Next::Fallback { attempt: 1 });
    assert_eq!(d.settle(timed_out(), true), Next::Retry { retry: 1 });
    assert_eq!(
        d.settle(timed_out(), false),
        Next::Fail(provider(
            OutcomeClass::RetryableProviderFailure,
            "timed out (after 1 automatic retry)"
        ))
    );
    let mut d = Dispatch::new("a", &vec![], 4);
    assert_eq!(d.settle(gone(), true), Next::Exhausted);
    assert_eq!(d.failures.len(), 1);
    assert_eq!(d.failures[0].route, "a");
    assert_eq!(d.failures[0].reason, "not installed");
    let mut d = Dispatch::new("a", &strings(&["b"]), 4);
    assert_eq!(
        d.settle(Attempted::Failed(Failure::Invalid("drift".into())), true),
        Next::Fail(Failure::Invalid("drift".into()))
    );
    assert_eq!(Dispatch::new("a", &vec![], 0).settle(Attempted::Done, false), Next::Finish);
}

#[test]
fn only_mechanical_failures_are_retried() {
    let safe = |role, class| retry_safe(role, class, false, true);
    assert!(safe(AgentRole::Executor, OutcomeClass::RetryableProviderFailure));
    assert!(safe(AgentRole::Verifier, OutcomeClass::ValidationFailure));
    assert!(!safe(AgentRole::Planner, OutcomeClass::ValidationFailure));
    assert!(!safe(AgentRole::Executor, OutcomeClass::NonretryableProviderFailure));
    assert!(!safe(AgentRole::Executor, OutcomeClass::SemanticRejection));
    assert!(!retry_safe(AgentRole::Executor, OutcomeClass::RetryableProviderFailure, true, true));
    assert!(!retry_safe(AgentRole::Executor, OutcomeClass::RetryableProviderFailure, false, false));
    assert_eq!(
        provider_failure(OutcomeClass::SemanticRejection, &"x".repeat(2000)),
        provider(OutcomeClass::SemanticRejection, &"x".repeat(900))
    );
    assert!(same_policy(&Some("h".into()), "h", true).is_ok());
    assert_eq!(
        message(same_policy(&None, "h", false)),
        "SOURCE_DRIFT: project policy changed; replan/revalidation required"
    );
    assert_eq!(
        message(same_policy(&Some("x".into()), "h", true)),
        "SOURCE_DRIFT: project policy changed before launch; replan/revalidation required"
    );
    assert!(fall_back(true, false).is_ok());
    assert!(fall_back(false, false).is_err());
    assert!(fall_back(true, true).is_err());
    assert_eq!(
        exhausted("planner", "a: gone"),
        Failure::Invalid("role planner: all permitted route attempts failed: a: gone".into())
    );
}

// --- one attempt -----------------------------------------------------------

#[test]
fn jobs_get_only_what_they_were_issued() {
    assert!(bounded_input(262_144).is_ok());
    assert!(bounded_input(262_145).is_err());
    let source = |path: &str, kind, truncated| SuppliedSource {
        path: path.into(),
        kind,
        start_line: None,
        end_line: None,
        content_hash: None,
        truncated,
    };
    let paths = vec![
        source("a", SuppliedKind::File, false),
        source("b", SuppliedKind::File, true),
        source("c", SuppliedKind::Excerpt, false),
    ];
    let v = issued_visibility(
        ContextVisibility::Issued,
        AgentRole::Executor,
        &paths,
        &vec![dir("src")],
    )
    .unwrap();
    assert_eq!(v.read_files, ["a"]);
    assert_eq!(v.write_paths, ["src"]);
    assert_eq!(
        issued_visibility(ContextVisibility::Workspace, AgentRole::Executor, &paths, &vec![]),
        None
    );
    let r = rights(AgentRole::Executor, false, true);
    assert!(r.writable && r.network);
    assert!(!rights(AgentRole::Verifier, false, false).writable);
    assert!(!rights(AgentRole::Executor, true, false).writable);
}

#[test]
fn a_watch_interrupts_for_the_first_reason() {
    let mut w = Watch::new(100);
    assert!(!w.cancel(false));
    assert!(!w.expire(99));
    assert_eq!(w.interruption, None);
    let mut w = Watch::new(100);
    assert!(w.cancel(true));
    w.stopped(Interruption::Cancelled);
    assert_eq!(w.interruption, Some(Interruption::Cancelled));
    let mut w = Watch::new(100);
    assert!(!w.expire(100));
    assert!(w.expire(101));
    w.stopped(Interruption::Timeout);
    assert_eq!(w.interruption, Some(Interruption::Timeout));
}

fn exchange() -> Exchange {
    Exchange {
        interruption: None,
        timeout_ms: 500,
        failure: None,
        exit: Some(0),
        fault: None,
        uncollected: None,
    }
}

#[test]
fn exchanges_are_classified() {
    assert!(read_exchange(&exchange(), "Plan").is_ok());
    let read = |f: &dyn Fn(&mut Exchange)| {
        let mut x = exchange();
        f(&mut x);
        read_exchange(&x, "Plan").unwrap_err()
    };
    assert_eq!(
        read(&|x| x.interruption = Some(Interruption::Timeout)),
        provider(OutcomeClass::RetryableProviderFailure, "provider timed out after 500 ms")
    );
    assert_eq!(
        read(&|x| x.interruption = Some(Interruption::Cancelled)),
        Failure::Invalid("cancelled".into())
    );
    assert_eq!(
        read(&|x| x.failure = Some("pipe".into())),
        provider(OutcomeClass::RetryableProviderFailure, "pipe")
    );
    assert_eq!(
        read(&|x| x.exit = Some(-3)),
        provider(OutcomeClass::RetryableProviderFailure, "provider exited Some(-3)")
    );
    assert_eq!(
        read(&|x| {
            x.exit = None;
            x.fault = Some(Fault { retryable: true, summary: "overloaded".into() });
        }),
        provider(OutcomeClass::RetryableProviderFailure, "provider exited None: overloaded")
    );
    assert_eq!(
        read(&|x| {
            x.exit = Some(1);
            x.fault = Some(Fault { retryable: false, summary: "no credit".into() });
        }),
        provider(OutcomeClass::NonretryableProviderFailure, "no credit")
    );
    assert_eq!(
        read(&|x| x.uncollected = Some("EOF".into())),
        provider(
            OutcomeClass::RetryableProviderFailure,
            "reply is not exactly one Plan JSON document (EOF)"
        )
    );
    assert_eq!(name_exit(Some(i32::MIN)), "Some(-2147483648)");
}

#[test]
fn results_must_be_the_jobs_own() {
    let clean = ReplyFacts { malformed: None, refusal: None };
    let result = |job: &str, evidence: &[&str]| ResultIdentity {
        task_id: "task:a".into(),
        executor_job_id: job.into(),
        evidence: strings(evidence),
    };
    let take = |facts: &ReplyFacts, r: &ResultIdentity| {
        take_result(facts, "ExecutionResult", r, Some("task:a"), "runtime:e")
    };
    assert!(take(&clean, &result("runtime:e", &[])).is_ok());
    assert_eq!(
        take(&clean, &result("runtime:x", &[])).unwrap_err(),
        provider(
            OutcomeClass::ValidationFailure,
            "[EXEC-OUTPUT] result names task task:a / executor job runtime:x, but this job is task task:a / job runtime:e"
        )
    );
    assert_eq!(
        take(&clean, &result("runtime:e", &["e"])).unwrap_err(),
        provider(
            OutcomeClass::ValidationFailure,
            "[EXEC-OUTPUT] evidence must be []; agentctl captures evidence itself"
        )
    );
    let malformed = ReplyFacts { malformed: Some("eof".into()), refusal: None };
    assert_eq!(
        take(&malformed, &result("runtime:e", &[])).unwrap_err(),
        provider(
            OutcomeClass::RetryableProviderFailure,
            "reply does not match the ExecutionResult schema (eof)"
        )
    );
    let target = packet(VerificationDecision::Pass).target;
    let evidence = strings(&["evidence:1"]);
    let verify = |requests: bool, evidence: &Vec<String>| {
        take_proof(
            &clean,
            "VerificationPacket",
            &packet(VerificationDecision::Pass),
            requests,
            "runtime:v",
            &target,
            evidence,
        )
    };
    assert_eq!(verify(false, &evidence).unwrap(), Some(VerificationDecision::Pass));
    assert_eq!(verify(true, &evidence).unwrap(), None);
    assert_eq!(
        verify(false, &vec![]).unwrap_err(),
        provider(
            OutcomeClass::ValidationFailure,
            "[VER-OUTPUT] verifier_job_id, target and evidence must equal the issued job id, target and evidence verbatim"
        )
    );
    assert!(take_plan(&None, "ExecutionPlan").is_ok());
    assert!(take_plan(&Some("eof".into()), "ExecutionPlan").is_err());
    assert_eq!(
        after_launch(Failure::Unavailable("gone".into()), false),
        Failure::Unavailable("gone".into())
    );
    assert!(!matches!(
        after_launch(Failure::Unavailable("gone".into()), true),
        Failure::Unavailable(_)
    ));
    assert_eq!(finished(true, true), (RuntimeJobState::Cancelled, "JOB_CANCELLED"));
    assert_eq!(finished(false, true), (RuntimeJobState::Succeeded, "JOB_SUCCEEDED"));
    assert_eq!(finished(false, false), (RuntimeJobState::Failed, "JOB_FAILED"));
}

// --- acceptance ------------------------------------------------------------

fn report(changed: &[&str]) -> ReportedResult {
    ReportedResult {
        succeeded: true,
        status: "SUCCEEDED".into(),
        requests_context: false,
        failure: None,
        changed_paths: strings(changed),
    }
}

fn work(changed: &[&str]) -> CapturedWork {
    CapturedWork { changed: strings(changed), scope_violations: 0 }
}

#[test]
fn captured_work_must_be_what_was_reported() {
    let judged = |r: &ReportedResult, w: &CapturedWork| {
        judge(r, w, &vec![dir("vendor")], "task:a", "runtime:e")
    };
    assert_eq!(judged(&report(&["b", "a"]), &work(&["a", "b"])).unwrap(), Judged::Capture);
    assert_eq!(
        judged(&report(&["a"]), &work(&["a", "b"])).unwrap_err(),
        Failure::Invalid("executor changed-path report differs from captured files".into())
    );
    assert_eq!(
        judged(&report(&["vendor/x"]), &work(&["vendor/x"])).unwrap_err(),
        Failure::Invalid("executor violated verification contract exclusions".into())
    );
    let mut outside = work(&["a"]);
    outside.scope_violations = 1;
    assert_eq!(
        judged(&report(&["a"]), &outside).unwrap_err(),
        Failure::Invalid(
            "executor wrote outside allowed scope; result retained but not accepted".into()
        )
    );
    let mut asks = report(&[]);
    asks.requests_context = true;
    asks.succeeded = false;
    assert_eq!(judged(&asks, &work(&[])).unwrap(), Judged::Relay);
    assert!(judged(&asks, &work(&["a"])).is_err());
    let mut failed = report(&[]);
    failed.succeeded = false;
    failed.status = "BLOCKED".into();
    failed.failure = Some(ReportedFailure { code: "X".into(), summary: "why".into() });
    assert_eq!(
        judged(&failed, &work(&[])).unwrap_err(),
        provider(
            OutcomeClass::SemanticRejection,
            "EXECUTOR_BLOCKED: X: why [task task:a, executor job runtime:e]; no files were changed; correct the plan with a replacement (agentctl run replace)"
        )
    );
}

#[test]
fn required_checks_are_run_and_believed() {
    let profile = |name: &str, refs: &[&str]| VerificationProfile {
        name: name.into(),
        description: "d".into(),
        command_refs: strings(refs),
    };
    let profiles = vec![profile("unit", &["a", "b"]), profile("empty", &[])];
    assert_eq!(required_commands(&strings(&["unit"]), &profiles).unwrap(), ["a", "b"]);
    assert_eq!(
        message(required_commands(&strings(&["unit", "empty"]), &profiles)),
        "verification empty has no deterministic command; configure project policy"
    );
    assert_eq!(
        message(required_commands(&strings(&["x"]), &profiles)),
        "canonical verification profile disappeared"
    );
    let outcome = |exit, unchanged| CheckOutcome {
        interrupted: false,
        exit,
        failed: false,
        unchanged,
    };
    assert!(take_check("unit", &outcome(Some(0), true)).is_ok());
    assert_eq!(
        message(take_check("unit", &outcome(Some(1), true))),
        "deterministic check unit failed; model prose cannot override it"
    );
    assert_eq!(
        message(take_check("unit", &outcome(Some(0), false))),
        "SOURCE_DRIFT: verification command changed workspace"
    );
    assert!(!stop_check(false, false, 5, 10));
    assert!(stop_check(false, true, 5, 10));
    assert!(!stop_check(true, true, 5, 10));
    assert!(!stop_check(false, false, 10, 10));
    assert!(stop_check(false, false, 11, 10));
}

#[test]
fn only_passed_work_is_accepted() {
    assert_eq!(
        to_executing(TaskState::Planned),
        [TaskState::Ready, TaskState::Executing]
    );
    assert_eq!(state_after(VerificationDecision::Reject), TaskState::Rejected);
    let mut r = run();
    assert_eq!(message(accept(&mut r)), "pending task missing");
    r.pending = Some(pending("task:a"));
    assert!(message(accept(&mut r)).starts_with("verifier rejected/blocked task"));
    let mut p = pending("task:a");
    p.proof = Some(packet(VerificationDecision::Pass));
    r.pending = Some(p);
    assert_eq!(message(accept(&mut r)), "missing fresh verifier identity");
    let mut p = pending("task:a");
    recover(
        &mut p,
        "runtime:v".into(),
        packet(VerificationDecision::Pass),
        &strings(&["evidence:1"]),
    )
    .unwrap();
    assert_eq!(p.verifier.as_deref(), Some("runtime:v"));
    r.pending = Some(p);
    accept(&mut r).unwrap();
    assert_eq!(r.pending, None);
    assert_eq!(r.accepted.len(), 1);
    assert_eq!(r.accepted[0].verifier, "runtime:v");
    assert_eq!(list_executors(&r.accepted), ["runtime:e"]);
    assert_eq!(
        verifying(&pending("task:a"), TaskState::AwaitingVerification).unwrap(),
        Verifying::Verify { checks: true }
    );
}

#[test]
fn refused_plans_are_corrected_only_when_a_rule_is_cited() {
    let cited = correction("[PLAN-SCOPE] too wide", 0);
    assert_eq!(cited.kept, "[PLAN-SCOPE] too wide");
    assert!(cited.attempt.is_some());
    assert_eq!(cited.max_attempts, 1);
    assert!(cited.instruction.starts_with("agentctl refused previous_decision for the reason"));
    assert!(correction("source drift", 0).attempt.is_none());
}

#[test]
fn verifiers_are_told_how_a_result_was_published() {
    let at = |head: &str| SourceStateRef { head_commit: Some(head.into()), worktree_diff_hash: None };
    let mut serial = pending("task:a");
    assert_eq!(reconciliation_chain(&serial, at("b"), at("c"), at("d")), None);
    serial.reconciled_from = Some(artifact("canonical"));
    serial.execution_workspace = Some("/worktrees/a".into());
    let chain = reconciliation_chain(&serial, at("b"), at("c"), at("d")).unwrap();
    assert_eq!(chain.task_id, "task:a");
    assert_eq!(chain.executor_job_id, "runtime:e");
    assert_eq!(chain.diff, artifact("diff"));
    assert_eq!(chain.execution_workspace.as_deref(), Some("/worktrees/a"));
    assert_eq!(chain.branch_result, at("b"));
    assert_eq!(chain.canonical_before, at("c"));
    assert_eq!(chain.canonical_after, at("d"));
    assert!(chain.guarantee.starts_with("This executor ran in an isolated worktree"));
}

// --- the run ---------------------------------------------------------------

#[test]
fn runs_are_entered_and_stopped() {
    let untouched = vec![status("task:a", TaskState::Planned)];
    assert!(check_ownership(PlanState::Active, &untouched, &vec![], "plan:a").is_ok());
    assert_eq!(
        message(check_ownership(PlanState::Validated, &untouched, &vec![], "plan:a")),
        "runtime requires an ACTIVE execution plan"
    );
    assert_eq!(
        message(check_ownership(
            PlanState::Active,
            &vec![status("task:a", TaskState::Verified)],
            &vec![],
            "plan:a"
        )),
        "runtime cannot adopt externally executed/verified tasks"
    );
    assert_eq!(
        enter(&run(), "session", PlanState::Active, true).unwrap(),
        Entry::Drive { resumed: true }
    );
    assert!(message(enter(&run(), "other", PlanState::Active, true))
        .starts_with("legacy/foreign engineering-session ownership"));
    let mut blocked = run();
    blocked.state = RunState::Blocked;
    assert!(message(enter(&blocked, "session", PlanState::Active, true))
        .starts_with("runtime is blocked/cancelled"));
    assert_eq!(
        enter(&blocked, "session", PlanState::Complete, true).unwrap(),
        Entry::Completed { record: true }
    );
    let tasks = vec![
        status("a", TaskState::Verified),
        status("b", TaskState::Executing),
        status("c", TaskState::Verifying),
        status("d", TaskState::Planned),
    ];
    let ids = |which| -> Vec<String> {
        tasks_to_stop(&tasks, which).into_iter().map(|t| t.task_id).collect()
    };
    assert_eq!(ids(Stopping::Launched), ["b"]);
    assert_eq!(ids(Stopping::UnderWay), ["b", "c"]);
    assert_eq!(ids(Stopping::Unsettled), ["b", "c", "d"]);
}

#[test]
fn completed_plans_leave_a_complete_run() {
    let mut finished = run();
    assert_eq!(
        take_up(&mut finished, "session", PlanState::Complete, true).unwrap(),
        Entry::Completed { record: true }
    );
    assert_eq!(finished.state, RunState::Complete);
    assert!(!goes_on(&finished));
    let mut driven = run();
    assert_eq!(
        take_up(&mut driven, "session", PlanState::Active, false).unwrap(),
        Entry::Drive { resumed: false }
    );
    assert!(goes_on(&driven));
    complete(&mut driven);
    assert_eq!(driven.state, RunState::Complete);
    let mut blocked = run();
    refuse_adoption(&mut blocked, "a task is already executing".into());
    assert_eq!(blocked.state, RunState::Blocked);
    assert_eq!(blocked.reason.as_deref(), Some("a task is already executing"));
    assert!(take_up(&mut blocked, "session", PlanState::Active, true).is_err());
    assert_eq!(blocked.state, RunState::Blocked);
}

#[test]
fn failed_jobs_record_a_bounded_text_and_their_class() {
    let long = "é".repeat(2000);
    assert_eq!(failed_job(&long), "é".repeat(1024));
    let mut j = job("v", AgentRole::Verifier, RuntimeJobState::Running);
    let failure = provider(OutcomeClass::RetryableProviderFailure, &long);
    assert_eq!(finish_job(&mut j, false, Some(&failure), &long), "JOB_FAILED");
    assert_eq!(j.state, RuntimeJobState::Failed);
    assert_eq!(j.failure, Some("é".repeat(1024)));
    assert_eq!(j.failure_class, Some(OutcomeClass::RetryableProviderFailure));
    let drift = Failure::Invalid("drift".into());
    finish_job(&mut j, true, Some(&drift), "drift");
    assert_eq!(j.state, RuntimeJobState::Cancelled);
    assert_eq!(j.failure_class, None);
    finish_job(&mut j, false, None, "");
    assert_eq!(j.state, RuntimeJobState::Succeeded);
    assert_eq!(j.failure, None);
}

#[test]
fn failures_settle_a_run() {
    let retryable = || provider(OutcomeClass::RetryableProviderFailure, "down");
    let mut down = run();
    let s = settle(&mut down, retryable(), "down", false, true);
    assert_eq!(s.state, RunState::Running);
    assert_eq!(down.state, RunState::Running);
    assert_eq!(down.reason, Some(s.reason.clone()));
    assert_eq!(s.phase, "PROVIDER_UNAVAILABLE");
    assert_eq!(s.stop, Some(Stopping::Launched));
    assert_eq!(
        s.failure,
        provider(
            OutcomeClass::RetryableProviderFailure,
            "down; no uncertain change exists, so `agentctl run resume plan:a` continues when the provider is available"
        )
    );
    let mut dirty = run();
    let s = settle(&mut dirty, retryable(), "down", false, false);
    assert_eq!(s.state, RunState::Blocked);
    assert_eq!(dirty.state, RunState::Blocked);
    assert!(dirty.reason.is_some());
    assert_eq!(s.phase, "BLOCKED_NEEDS_PLANNER");
    let drift = "SOURCE_DRIFT: x";
    let s = settle(&mut run(), Failure::Invalid(drift.into()), drift, true, true);
    assert_eq!(s.state, RunState::Cancelled);
    assert_eq!(s.phase, "SOURCE_DRIFT_DETECTED");
    let mut half = run();
    half.reconciliation = Some(ReconciliationIntent {
        task_id: "task:a".into(),
        executor: "runtime:e".into(),
        diff: artifact("diff"),
        expected_source: artifact("x"),
        intended_source: artifact("y"),
    });
    let s = settle(&mut half, Failure::Invalid("crash".into()), "crash", false, true);
    assert_eq!(s.state, RunState::Running);
    assert_eq!(s.phase, "RECONCILIATION_PENDING");
    assert_eq!(s.stop, None);
}

fn file(path: &str, hash: &str) -> FileEntry {
    FileEntry {
        path: path.into(),
        state: FileState { content: artifact(hash), mode: 0o644 },
    }
}

fn snapshot(files: Vec<FileEntry>) -> SourceSnapshot {
    SourceSnapshot {
        repository_id: "r".into(),
        workspace_id: "w".into(),
        head: Some("head".into()),
        dirty: false,
        index_hash: "index".into(),
        files,
        ignored: vec![],
        exclude_hash: None,
    }
}

#[test]
fn discarding_touches_only_the_executors_files() {
    let mut r = run();
    assert!(message(check_discard(&r)).starts_with("this run predates"));
    r.verified = Some(artifact("verified"));
    assert!(check_discard(&r).is_ok());
    assert_eq!(find_discardable(&r), None);
    r.pending = Some(pending("task:a"));
    assert_eq!(find_discardable(&r), Some(artifact("diff")));
    let accepted = snapshot(vec![file("a", "1"), file("b", "1")]);
    let current = snapshot(vec![file("a", "2"), file("b", "1"), file("c", "1")]);
    let captured = |plan: &str, paths: &[&str]| {
        Some(CapturedResult { plan_id: plan.into(), paths: strings(paths) })
    };
    let writes = |paths: &[&str]| {
        let mut t = bare_task("task:a");
        t.write_scope = paths.iter().map(|p| ScopePath::File { path: p.to_string() }).collect();
        vec![t]
    };
    let all = writes(&["a", "c"]);
    let restore = |tasks: &Vec<TaskPacket>, plan: &str, paths: &[&str]| {
        check_restore(&r, tasks, &current, &accepted, &captured(plan, paths))
    };
    assert!(restore(&all, "plan:a", &["a", "c"]).is_ok());
    assert_eq!(
        message(restore(&all, "plan:a", &["a"])),
        "workspace also differs from the last verified source in files this plan's executor never wrote (c); resolve those changes explicitly before discarding"
    );
    assert_eq!(
        message(restore(&writes(&["a"]), "plan:a", &["a", "c"])),
        "workspace also differs from the last verified source in files outside this plan's write scopes (c); resolve those changes explicitly before discarding"
    );
    assert_eq!(
        message(restore(&writes(&["c"]), "plan:a", &["a"])),
        "workspace also differs from the last verified source in files this plan's executor never wrote (c) and in files outside this plan's write scopes (a); resolve those changes explicitly before discarding"
    );
    assert_eq!(
        message(restore(&all, "plan:b", &["a"])),
        "captured result belongs to another plan"
    );
    assert_eq!(
        message(check_restore(&r, &all, &accepted, &accepted, &None)),
        "workspace already equals the last verified source; nothing to discard"
    );
    discard(&mut r);
    assert_eq!(r.pending, None);
    assert_eq!(r.refused, None);
    assert_eq!(r.expected, artifact("verified"));
    assert_eq!(recorded_source(&r), artifact("verified"));
    assert!(unchanged_since_recorded(&r, true));
    assert!(!unchanged_since_recorded(&r, false));
}

#[test]
fn runs_are_cancelled_and_replaced() {
    assert_eq!(message(cancel(&None)), "runtime plan not found");
    assert_eq!(cancel(&Some(run())).unwrap(), Cancelling::Ask);
    let mut done = run();
    done.state = RunState::Complete;
    assert_eq!(
        message(cancel(&Some(done))),
        "plan completed; its result is accepted truth and is not cancellable"
    );
    let mut stopped = run();
    stopped.state = RunState::Blocked;
    assert_eq!(cancel(&Some(stopped)).unwrap(), Cancelling::Outright);
    let mut r = run();
    record_cancelled(&mut r);
    assert_eq!(r.state, RunState::Cancelled);
    assert_eq!(message(check_replace(&None, 3)), "runtime plan missing");
    assert_eq!(
        message(check_replace(&Some(run()), 3)),
        "only stopped runtime plans can be replaced"
    );
    r.correction_round = 3;
    assert_eq!(
        message(check_replace(&Some(r), 3)),
        "correction limit reached; human escalation required"
    );
}

// --- scheduling ------------------------------------------------------------

#[test]
fn interrupted_work_is_never_believed() {
    let jobs = vec![
        job("a", AgentRole::Executor, RuntimeJobState::Running),
        job("b", AgentRole::Executor, RuntimeJobState::Succeeded),
        job("c", AgentRole::Executor, RuntimeJobState::Queued),
    ];
    assert_eq!(interrupted(&jobs), (vec![0, 2], false));
    let verifier = vec![job("v", AgentRole::Verifier, RuntimeJobState::Running)];
    assert_eq!(interrupted(&verifier), (vec![0], true));
    assert!(check_interrupted(false).is_ok());
    assert!(check_interrupted(true).is_err());
    assert_eq!(abandoned(JobState::Succeeded), None);
    assert!(abandoned(JobState::Running).is_some());
    let mut r = run();
    assert!(check_rounds(&r, 1).is_ok());
    r.correction_round = 5;
    assert!(check_rounds(&r, 1).is_err());
    let mut r = run();
    assert!(!needs_refresh(&r));
    r.accepted = vec![AcceptedTask {
        task_id: "task:x".into(),
        executor: "runtime:e".into(),
        verifier: "runtime:v".into(),
        diff: artifact("diff"),
        evidence: vec![],
    }];
    assert!(needs_refresh(&r));
    r.pending = Some(pending("task:a"));
    assert!(!needs_refresh(&r));
    assert_eq!(count_relaunch(&mut r, "task:a"), 1);
    assert_eq!(count_relaunch(&mut r, "task:b"), 1);
    assert_eq!(count_relaunch(&mut r, "task:a"), 2);
    assert_eq!(r.executor_relaunches.len(), 2);
}

// --- branches --------------------------------------------------------------

fn generation(n: u64) -> GraphGeneration {
    GraphGeneration { sequence: n, fingerprint: format!("g{n}") }
}

fn compatible(n: u64) -> Vec<CompatibilityDecision> {
    vec![CompatibilityDecision {
        left: "task:a".into(),
        right: "task:b".into(),
        decision: Compatibility::Compatible,
        reasons: vec![
            CompatibilityReason::DisjointDeclaredScopes,
            CompatibilityReason::OntologyProvesNoInterference { generation: generation(n) },
        ],
    }]
}

#[test]
fn batches_are_claimed_on_current_authority() {
    let facts = |unchanged, g, state, cancelled| ClaimFacts {
        source_unchanged: unchanged,
        generation: g,
        plan_state: state,
        cancelled,
    };
    let ok = || facts(true, Some(generation(1)), PlanState::Active, false);
    assert!(check_claim(&compatible(1), &ok()).is_ok());
    let stale = |r| message(r).replace("STALE_CONCURRENCY_AUTHORITY: ", "");
    let mut unknown = compatible(1);
    unknown[0].decision = Compatibility::Unknown;
    assert_eq!(
        stale(check_claim(&unknown, &ok())),
        "pairwise compatibility is no longer proven"
    );
    assert_eq!(
        stale(check_claim(&compatible(2), &ok())),
        "compatibility does not bind the current ontology"
    );
    let active = PlanState::Active;
    assert_eq!(
        stale(check_claim(&compatible(1), &facts(false, Some(generation(1)), active, false))),
        "canonical source changed before batch claim"
    );
    assert_eq!(
        stale(check_claim(&compatible(1), &facts(true, None, active, false))),
        "accepted ontology is unavailable"
    );
    assert_eq!(
        stale(check_claim(
            &compatible(1),
            &facts(true, Some(generation(1)), PlanState::Cancelled, false)
        )),
        "execution plan is no longer active"
    );
    assert_eq!(
        stale(check_claim(&compatible(1), &facts(true, Some(generation(1)), active, true))),
        "runtime was cancelled before batch claim"
    );
    let rule = |r: Option<&str>| ClaimRule { ready: r.map(str::to_owned), executing: None };
    assert_eq!(
        claim(Some(TaskState::Planned), &rule(None)).unwrap(),
        [TaskState::Ready, TaskState::Executing]
    );
    assert_eq!(claim(Some(TaskState::Ready), &rule(Some("no"))).unwrap(), [TaskState::Executing]);
    assert_eq!(message(claim(Some(TaskState::Planned), &rule(Some("no")))), "no");
    assert_eq!(message(claim(None, &rule(None))), "batch task state disappeared");
    assert_eq!(
        stale(claim(Some(TaskState::Verified), &rule(None)).map(|_| ())),
        "selected task is no longer READY"
    );
    assert!(branch_stops(TaskState::Executing));
    assert!(!branch_stops(TaskState::Verified));
}

#[test]
fn launches_are_checked_against_durable_authority() {
    let mut r = run();
    r.batch_authority = Some(BatchLaunchAuthority {
        source: artifact("now"),
        ontology_generation: "g1".into(),
        tasks: strings(&["task:a", "task:b"]),
        compatibility: compatible(1),
    });
    let branch = || {
        Some(BranchAuthority { compatibility: compatible(1), generation: Some("g1".into()) })
    };
    let facts = || LaunchFacts {
        source_unchanged: true,
        plan_state: PlanState::Active,
        cancelled: false,
        generation: Some("g1".into()),
        batch_source_unchanged: true,
    };
    let states = vec![status("task:a", TaskState::Executing)];
    let launch = |r: &RunRecord, task, b: &Option<BranchAuthority>, f: &LaunchFacts| {
        check_launch(r, &states, AgentRole::Executor, Some(task), b, f)
    };
    assert!(launch(&r, "task:a", &branch(), &facts()).is_ok());
    let mut f = facts();
    f.generation = Some("g2".into());
    assert_eq!(
        message(launch(&r, "task:a", &branch(), &f)),
        "STALE_CONCURRENCY_AUTHORITY: ontology changed before executor launch"
    );
    let mut f = facts();
    f.source_unchanged = false;
    assert_eq!(
        message(launch(&r, "task:a", &branch(), &f)),
        "SOURCE_DRIFT: launch source changed before external process creation"
    );
    assert_eq!(
        message(launch(&r, "task:b", &branch(), &facts())),
        "STALE_CONCURRENCY_AUTHORITY: task claim changed before executor launch"
    );
    assert_eq!(
        message(launch(&run(), "task:a", &branch(), &facts())),
        "STALE_CONCURRENCY_AUTHORITY: durable batch authority missing"
    );
    let mut other = branch();
    other.as_mut().unwrap().compatibility = compatible(2);
    assert_eq!(
        message(launch(&r, "task:a", &other, &facts())),
        "STALE_CONCURRENCY_AUTHORITY: launch no longer corresponds to the authorized batch branch"
    );
    let verified = vec![status("task:a", TaskState::Verified)];
    assert_eq!(
        message(check_launch(&r, &verified, AgentRole::Verifier, None, &None, &facts())),
        "STALE_CONCURRENCY_AUTHORITY: plan is not currently eligible for integration verification"
    );
    let b = branch().unwrap();
    assert!(check_claimed(true, "g1", &b, Some(TaskState::Executing)).is_ok());
    assert_eq!(
        message(check_claimed(true, "g2", &b, Some(TaskState::Executing))),
        "STALE_CONCURRENCY_AUTHORITY: ontology changed after batch claim and before executor launch"
    );
}

#[test]
fn captured_branches_are_recovered_or_serialized() {
    let mut r = run();
    assert_eq!(message(check_recovery(&r)), "reconciliation intent missing");
    r.reconciliation = Some(ReconciliationIntent {
        task_id: "task:a".into(),
        executor: "runtime:e".into(),
        diff: artifact("diff"),
        expected_source: artifact("x"),
        intended_source: artifact("y"),
    });
    assert_eq!(
        message(check_recovery(&r)),
        "reconciliation intent has no captured branch"
    );
    let mut branch = pending("task:a");
    branch.execution_workspace = Some("tree-a".into());
    r.branches = vec![pending("task:b"), branch];
    assert_eq!(kept_worktrees(&r), ["tree-a"]);
    assert!(!is_abandoned(&kept_worktrees(&r), "tree-a"));
    assert!(is_abandoned(&kept_worktrees(&r), "tree-b"));
    assert!(check_recovery(&r).is_ok());
    reconciled(&mut r, artifact("published"));
    assert_eq!(r.reconciliation, None);
    assert_eq!(r.expected, artifact("y"));
    assert_eq!(r.branches.len(), 1);
    assert_eq!(r.pending.as_ref().unwrap().task_id, "task:a");
    assert!(may_serialize("UNKNOWN: x", &r, "task:b"));
    assert!(!may_serialize("other", &r, "task:b"));
    serialize(&mut r, "task:b");
    assert!(r.branches.is_empty());
    assert!(withdrawn("task:b", &"x".repeat(900)).contains("task:b"));
    let moved = branch_capture(snapshot(vec![]), "index", &"canonical".to_string()).unwrap();
    assert_eq!(moved.index_hash, "canonical");
    assert!(branch_capture(snapshot(vec![]), "other", &"canonical".to_string()).is_err());
}

#[test]
fn siblings_that_touched_a_dependency_serialize_a_branch() {
    let mut task = bare_task("task:a");
    task.read_scope = vec![dir("lib")];
    task.write_scope = vec![dir("src")];
    task.graph_entities = strings(&["entity:x"]);
    let since = |boundaries, entity: &str, path: &str| SinceIssue {
        boundaries,
        items_omitted: 0,
        boundaries_omitted: 0,
        seeds: vec![Touched { entity: entity.into(), path: path.into() }],
        items: vec![],
    };
    assert!(revalidate_semantic("g", "g", &since(1, "entity:x", "lib/a"), &task).is_ok());
    assert!(revalidate_semantic("g", "h", &since(0, "entity:y", "doc/a"), &task).is_ok());
    assert!(message(revalidate_semantic("g", "h", &since(1, "entity:y", "doc"), &task))
        .starts_with("UNKNOWN:"));
    assert!(message(revalidate_semantic("g", "h", &since(0, "entity:x", "doc"), &task))
        .starts_with("SEMANTIC_INTERFERENCE:"));
    assert!(message(revalidate_semantic("g", "h", &since(0, "entity:y", "lib/a"), &task))
        .starts_with("SEMANTIC_INTERFERENCE:"));
}

// --- worktrees -------------------------------------------------------------

#[test]
fn worktrees_reproduce_the_baseline() {
    assert_eq!(directory_name("task:a:b"), "task-a-b");
    assert_eq!(worktree_name("task:a", "n"), "task-a-n");
    let id = identity("0123456789abcdef0123456789abcdef");
    assert_eq!(id.job_id, "runtime:0123456789abcdef0123456789abcdef");
    assert_eq!(id.session_id, "01234567-89ab-4def-a123-456789abcdef");
    let parts = |s: &str| s.split('/').map(str::to_owned).collect::<Vec<_>>();
    assert!(lies_inside(&parts("w/a"), &parts("w")));
    assert!(!lies_inside(&parts("ww"), &parts("w")));
    assert!(check_machine_state(&parts("home/d"), &parts("home/c"), &parts("w")).is_ok());
    assert_eq!(
        message(check_machine_state(&parts("w/d"), &parts("home/c"), &parts("w"))),
        "runtime machine state must be outside the workspace"
    );
    let expected = snapshot(vec![file("a", "1"), file("b", "2")]);
    let actual = snapshot(vec![file("b", "1"), file("c", "1")]);
    let changes = materialize(&expected, &actual).unwrap();
    assert_eq!(changes.remove, ["c"]);
    assert_eq!(changes.write, ["a", "b"]);
    let mut ignored = snapshot(vec![]);
    ignored.ignored = vec![IgnoredEntry {
        path: "x".into(),
        state: IgnoredFile { bytes: 1, modified_at_ms: None },
    }];
    assert!(message(materialize(&ignored, &actual)).starts_with("UNKNOWN: isolated execution"));
    let mut other = snapshot(vec![]);
    other.head = Some("elsewhere".into());
    assert_eq!(
        message(materialize(&expected, &other)),
        "SOURCE_INCOMPATIBLE: isolated worktree Git baseline differs"
    );
    assert!(check_materialized(snapshot(vec![file("a", "1")]), &snapshot(vec![file("a", "1")]))
        .is_ok());
    assert_eq!(
        message(check_materialized(snapshot(vec![]), &expected)),
        "SOURCE_INCOMPATIBLE: isolated worktree could not reproduce issued baseline"
    );
    assert_eq!(committed_head(&expected).unwrap(), "head");
    let mut unborn = snapshot(vec![]);
    unborn.head = None;
    assert_eq!(
        message(committed_head(&unborn)),
        "concurrent execution requires a committed baseline"
    );
}

// --- context relay ---------------------------------------------------------

fn limits() -> ContextConfig {
    ContextConfig {
        max_rounds: 2,
        verifier_max_rounds: 1,
        max_round_bytes: 100,
        max_task_bytes: 150,
        max_escalations: 1,
        visibility: ContextVisibility::Workspace,
    }
}

fn item(index: usize, outcome: ItemOutcome, paths: &[&str]) -> ItemResolution {
    ItemResolution {
        index,
        outcome,
        bytes: 0,
        paths: strings(paths),
        candidates: vec![],
        detail: Some("why".into()),
    }
}

fn resolution(verdict: Verdict, code: Option<&str>, items: Vec<ItemResolution>) -> ContextResolution {
    let ledger = ContextLedger::new(AgentRole::Executor, Some("task:a".into()));
    ContextResolution {
        version: "agentctl-context-resolution-1".into(),
        subject: "executor:task:a".into(),
        request_hash: "request".into(),
        graph_generation: Some(generation(1)),
        source_hash: "source".into(),
        envelope: vec![dir("src")],
        items,
        verdict,
        code: code.map(str::to_owned),
        bytes: 40,
        budget: budget(80, &limits(), &ledger, 2, 1),
    }
}

fn decision(kind: DecisionKind) -> ContextDecision {
    ContextDecision {
        version: "agentctl-context-decision-1".into(),
        plan_id: "plan:a".into(),
        task_id: "task:a".into(),
        request_hash: "request".into(),
        decision: kind,
        read_scope_additions: vec![dir("lib")],
        reason: "needed".into(),
        actor: "planner".into(),
    }
}

fn delta_ref(bytes: usize) -> DeltaRef {
    DeltaRef { delta_id: "delta:1".into(), artifact: artifact("delta"), bytes }
}

#[test]
fn grants_spend_the_budget() {
    let mut ledger = ContextLedger::new(AgentRole::Executor, Some("task:a".into()));
    let b = budget(500, &limits(), &ledger, 2, 1);
    assert_eq!(b.round_limit, 100);
    assert_eq!(b.task_remaining, 150);
    let relay = record_round(
        &mut ledger,
        "runtime:e".into(),
        artifact("request"),
        artifact("resolution"),
        &resolution(Verdict::Granted, None, vec![]),
        Some(delta_ref(120)),
    );
    assert_eq!(relay, Relay::Granted);
    assert!(go_on(&relay, "task:a", false).is_ok());
    assert_eq!(ledger.state, LedgerState::Open);
    assert_eq!(ledger.rounds_used(), 1);
    let state = relay_state(&limits(), &ledger, 2);
    assert_eq!(state.task_bytes_remaining, 30);
    assert_eq!(state.rounds_remaining, 1);
    assert!(state.policy.starts_with("agentctl resolves a request deterministically"));
    assert_eq!(item_kinds().len(), 7);
    assert_eq!(item_kinds()[5], "FILE_RANGE");
    assert_eq!(budget(20, &limits(), &ledger, 2, 1).round_limit, 20);
    assert_eq!(phase_of(Verdict::Granted), "CONTEXT_DELTA_GRANTED");
    assert!(check_request("runtime:e", &Some("task:a".into()), "runtime:e", &ledger).is_ok());
    assert!(check_request("runtime:x", &Some("task:a".into()), "runtime:e", &ledger).is_err());
}

#[test]
fn refused_requests_widen_nothing() {
    let mut ledger = ContextLedger::new(AgentRole::Executor, Some("task:a".into()));
    let relay = record_round(
        &mut ledger,
        "runtime:e".into(),
        artifact("request"),
        artifact("resolution"),
        &resolution(
            Verdict::Denied,
            Some("ITEM_UNRESOLVABLE"),
            vec![item(0, ItemOutcome::Granted, &[]), item(1, ItemOutcome::NotFound, &[])],
        ),
        None,
    );
    assert_eq!(relay, Relay::Denied("ITEM_UNRESOLVABLE (item 1 NotFound: why)".into()));
    assert_eq!(
        message(go_on(&relay, "task:a", false)),
        "CONTEXT_REQUEST_DENIED: ITEM_UNRESOLVABLE (item 1 NotFound: why); task task:a remains blocked"
    );
    assert_eq!(ledger.state, LedgerState::Denied);
    assert_eq!(ledger.granted_bytes, 0);
    assert!(ledger.approved_scope.is_empty());
    assert_eq!(
        message(check_open(&ledger, false)),
        "task context relay is Denied; an explicit planner decision is required (agentctl run context)"
    );
    assert_eq!(
        message(go_on(&Relay::Escalated, "task:a", true)),
        "VERIFIER_CONTEXT_REQUEST_DENIED: ESCALATION_NOT_PERMITTED; verification reached no decision"
    );
}

fn escalated() -> ContextLedger {
    let mut ledger = ContextLedger::new(AgentRole::Executor, Some("task:a".into()));
    ledger.base = Some(BaseRef {
        artifact: artifact("base"),
        graph_generation: Some(generation(1)),
        source_hash: "source".into(),
    });
    let relay = record_round(
        &mut ledger,
        "runtime:e".into(),
        artifact("request"),
        artifact("resolution"),
        &resolution(
            Verdict::Escalate,
            None,
            vec![item(0, ItemOutcome::OutsideEnvelope, &["lib/a"])],
        ),
        None,
    );
    assert_eq!(relay, Relay::Escalated);
    ledger
}

#[test]
fn escalations_wait_for_a_decision() {
    let ledger = escalated();
    assert_eq!(ledger.escalations, 1);
    let held = |ledger: ContextLedger| {
        let mut r = run();
        r.state = RunState::Blocked;
        r.reason = Some("escalated".into());
        r.context = vec![
            LedgerEntry {
                key: "executor:task:b".into(),
                ledger: ContextLedger::new(AgentRole::Executor, Some("task:b".into())),
            },
            LedgerEntry { key: "executor:task:a".into(), ledger },
        ];
        r
    };
    assert_eq!(
        message(check_decidable(&run(), &decision(DecisionKind::Deny))),
        "task has no context relay ledger"
    );
    let open = held(ContextLedger::new(AgentRole::Executor, None));
    assert_eq!(
        message(check_decidable(&open, &decision(DecisionKind::Deny))),
        "no escalated context request awaits a decision for the task"
    );
    let mut other = decision(DecisionKind::Approve);
    other.request_hash = "another".into();
    assert_eq!(
        message(check_decidable(&held(escalated()), &other)),
        "decision names another context request"
    );
    assert_eq!(check_decidable(&held(escalated()), &decision(DecisionKind::Deny)).unwrap(), 1);
    let resolutions = vec![resolution(
        Verdict::Escalate,
        None,
        vec![item(0, ItemOutcome::OutsideEnvelope, &["lib/a"])],
    )];
    let subject = report_subject("plan:a", &ledger, &resolutions, &limits());
    assert_eq!(subject.rounds_used, 0);
    let awaited = subject.awaited.unwrap();
    assert_eq!(awaited.request_hash, "request");
    assert_eq!(awaited.outside_paths, ["lib/a"]);
    assert_eq!(
        awaited.template,
        ContextDecision {
            version: "agentctl-context-decision-1".into(),
            plan_id: "plan:a".into(),
            task_id: "task:a".into(),
            request_hash: "request".into(),
            decision: DecisionKind::Approve,
            read_scope_additions: vec![ScopePath::File { path: "lib/a".into() }],
            reason: "<why this expansion is the planner's intent>".into(),
            actor: "<planner or operator>".into(),
        }
    );

    let mut refused = held(escalated());
    deny(&mut refused, &decision(DecisionKind::Deny), artifact("decision"));
    assert_eq!(refused.state, RunState::Blocked);
    assert_eq!(refused.reason.as_deref(), Some("CONTEXT_ESCALATION_DENIED: needed"));
    let denied = &refused.context[1].ledger;
    assert_eq!(denied.state, LedgerState::PlannerDenied);
    assert!(denied.approved_scope.is_empty());
    assert_eq!(denied.granted_bytes, 0);
    assert_eq!(denied.rounds_used(), 0);
    assert_eq!(refused.context[0].ledger.state, LedgerState::Open);

    let mut resumed = held(escalated());
    approve(
        &mut resumed,
        &decision(DecisionKind::Approve),
        artifact("decision"),
        artifact("resolved"),
        delta_ref(10),
    );
    assert_eq!(resumed.state, RunState::Running);
    assert_eq!(resumed.reason, None);
    let approved = &resumed.context[1].ledger;
    assert_eq!(approved.state, LedgerState::Open);
    assert_eq!(approved.approved_scope, [dir("lib")]);
    assert_eq!(approved.granted_bytes, 10);
    assert_eq!(approved.rounds_used(), 1);
    assert_eq!(approved.deltas().len(), 1);
    let env = widened(&vec![dir("src")], &vec![], &vec![dir("lib")], &vec![]);
    assert!(env.permits("lib/a"));
    assert!(!env.permits("doc/a"));
    assert!(check_resolved(&resolution(Verdict::Granted, None, vec![])).is_ok());
    assert!(check_resolved(&resolution(Verdict::Denied, Some("X"), vec![])).is_err());
    assert!(replans(Some(TaskState::Blocked)));
    assert!(!replans(Some(TaskState::Executing)));
}

#[test]
fn rounds_are_bound_to_their_base() {
    let base = BaseRef {
        artifact: artifact("base"),
        graph_generation: Some(generation(1)),
        source_hash: "source".into(),
    };
    assert!(revalidate(&base, &Some(generation(1)), "source").is_ok());
    assert_eq!(
        message(revalidate(&base, &Some(generation(2)), "source")),
        "SOURCE_DRIFT: ontology generation changed between context rounds; replan required"
    );
    assert_eq!(
        message(revalidate(&base, &Some(generation(1)), "other")),
        "SOURCE_DRIFT: workspace changed between context rounds; replan required"
    );
}

#[test]
fn verdicts_respect_every_budget() {
    let ledger = ContextLedger::new(AgentRole::Executor, None);
    let b = budget(80, &limits(), &ledger, 2, 1);
    let says = |items: &Vec<ItemResolution>, bytes: usize, b| {
        let (v, code) = verdict(items, bytes, b);
        (v, code.unwrap_or_default())
    };
    let granted = vec![item(0, ItemOutcome::Granted, &[])];
    assert_eq!(says(&granted, 80, &b).0, Verdict::Granted);
    assert_eq!(says(&granted, 81, &b), (Verdict::Denied, "ROUND_BUDGET_EXCEEDED".into()));
    let outside = vec![item(0, ItemOutcome::OutsideEnvelope, &["x"])];
    assert_eq!(says(&outside, 0, &b).0, Verdict::Escalate);
    assert_eq!(says(&outside, 81, &b), (Verdict::Denied, "ROUND_BUDGET_EXCEEDED".into()));
    let mut tight = b;
    tight.task_remaining = 10;
    assert_eq!(says(&outside, 20, &tight), (Verdict::Denied, "TASK_BUDGET_EXHAUSTED".into()));
    let mut none = b;
    none.max_escalations = 0;
    assert_eq!(says(&outside, 0, &none), (Verdict::Denied, "ESCALATION_NOT_PERMITTED".into()));
    let mut spent = b;
    spent.escalations_used = 1;
    assert_eq!(says(&outside, 0, &spent), (Verdict::Denied, "ESCALATIONS_EXHAUSTED".into()));
    let mut small = b;
    small.task_remaining = 10;
    assert_eq!(says(&granted, 20, &small), (Verdict::Denied, "TASK_BUDGET_EXHAUSTED".into()));
    let mut over = b;
    over.rounds_used = 2;
    assert_eq!(says(&granted, 1, &over), (Verdict::Denied, "ROUNDS_EXHAUSTED".into()));
    let stale = vec![item(0, ItemOutcome::Stale, &[])];
    assert_eq!(says(&stale, 1, &b), (Verdict::Denied, "ITEM_UNRESOLVABLE".into()));
}

#[test]
fn deltas_are_named_after_what_they_answer() {
    let hash = format!("blake3:{}", "ab".repeat(32));
    let of = |verdict| {
        delta(
            "plan:a",
            &Some("task:a".into()),
            AgentRole::Executor,
            "runtime:e",
            1,
            &resolution(verdict, None, vec![]),
            agentctl::runtime::context::Grant::Automatic,
            vec![],
            &hash,
            12,
        )
    };
    let d = of(Verdict::Granted).unwrap();
    assert_eq!(d.delta_id, format!("delta:{}", "ab".repeat(16)));
    assert_eq!(d.request_hash, "request");
    assert_eq!(
        message(of(Verdict::Denied)),
        "only a granted resolution yields a context delta"
    );
    assert_eq!(subject_key(AgentRole::Executor, &Some("task:a".into())), "executor:task:a");
    assert_ne!(
        subject_key(AgentRole::Verifier, &None),
        subject_key(AgentRole::Verifier, &Some("task:a".into()))
    );
}

#[test]
fn decisions_are_well_formed() {
    assert!(decision(DecisionKind::Approve).check(&vec![]).is_ok());
    let mut old = decision(DecisionKind::Approve);
    old.version = "0".into();
    assert_eq!(
        message(old.check(&vec![])),
        "context decision version must be agentctl-context-decision-1"
    );
    let mut wide = decision(DecisionKind::Approve);
    wide.read_scope_additions = (0..9).map(|i| dir(&format!("d{i}"))).collect();
    assert!(wide.check(&vec![]).is_err());
}

#[test]
fn a_used_ledger_is_never_serialized_away() {
    let mut r = run();
    let mut ledger = ContextLedger::new(AgentRole::Executor, Some("task:a".into()));
    record_round(
        &mut ledger,
        "runtime:e".into(),
        artifact("request"),
        artifact("resolution"),
        &resolution(Verdict::Granted, None, vec![]),
        Some(delta_ref(1)),
    );
    r.context = vec![LedgerEntry { key: "executor:task:a".into(), ledger }];
    assert!(!may_serialize("UNKNOWN: x", &r, "task:a"));
    assert!(may_serialize("UNKNOWN: x", &r, "task:b"));
}

// --- configuration ---------------------------------------------------------

#[test]
fn the_default_configuration_is_valid() {
    let facts = ConfigFacts {
        keychain_adapter: "keychain".into(),
        profiles: None,
        security: None,
        provider_names: vec![],
        executables: vec![],
        known_roles: vec![],
    };
    let config = RuntimeConfig::default();
    assert!(config.validate(&facts).is_ok());
    assert_eq!(
        config.context,
        ContextConfig {
            max_rounds: 2,
            verifier_max_rounds: 1,
            max_round_bytes: 16384,
            max_task_bytes: 49152,
            max_escalations: 1,
            visibility: ContextVisibility::Workspace,
        }
    );
    assert_eq!(
        message(config.role(AgentRole::Planner)),
        "configure runtime role Planner before launching"
    );
    assert!(ConcurrencyConfig { max_agents: 0 }.validate().is_err());
    let mut zero = limits();
    zero.max_round_bytes = 0;
    assert!(zero.validate().is_err());
    let mut config = RuntimeConfig::default();
    config.concurrency.max_agents = 4;
    assert_eq!(config.effective_max_agents(None), 4);
    assert_eq!(config.effective_max_agents(Some(2)), 2);
    assert_eq!(config.effective_max_agents(Some(9)), 4);
    assert_eq!(key_of(AgentRole::Verifier), "verifier");
    assert_eq!(name_of(AgentRole::Verifier), "Verifier");
    let one = ConfigFacts {
        keychain_adapter: "keychain".into(),
        profiles: None,
        security: None,
        provider_names: vec![None],
        executables: vec![None],
        known_roles: vec![],
    };
    let mut provided = RuntimeConfig::default();
    for (adapter, known) in [("codex", true), ("keychain", true), ("other", false)] {
        provided.providers = vec![NamedProvider {
            name: "p".into(),
            config: ProviderConfig {
                adapter: adapter.into(),
                executable: "/bin/p".into(),
                authentication: Authentication { mode: AuthMode::Auto, api_key_env: None },
            },
        }];
        let r = provided.validate(&one);
        assert_eq!(r.is_ok(), known);
        if !known {
            assert_eq!(message(r), "unknown provider adapter");
        }
    }
    let mut refused = facts;
    refused.security = Some("no".into());
    assert_eq!(message(config.validate(&refused)), "no");
}

// --- further edges ----------------------------------------------------------

#[test]
fn decisions_are_recovered_from_trusted_jobs_alone() {
    let at = || SourceStateRef { head_commit: Some("h".into()), worktree_diff_hash: None };
    let stored = |owned: bool, task: Option<&str>| StoredJob {
        refusal: None,
        input: Ok(IssuedInput { owned, task_id: task.map(str::to_owned), source: at() }),
    };
    let mut done = job("v", AgentRole::Verifier, RuntimeJobState::Succeeded);
    done.output = Some(artifact("out"));
    let jobs = vec![job("e", AgentRole::Executor, RuntimeJobState::Succeeded), done];
    let find = |second: StoredJob, task: Option<&str>| {
        completed_verifier(&jobs, &vec![stored(false, None), second], task, &at())
    };
    assert_eq!(find(stored(true, Some("task:a")), Some("task:a")).unwrap(), Some(1));
    assert_eq!(find(stored(true, Some("task:b")), Some("task:a")).unwrap(), None);
    assert_eq!(find(stored(true, None), None).unwrap(), Some(1));
    assert_eq!(
        message(find(stored(false, Some("task:b")), Some("task:a"))),
        "stored verifier input/session ownership mismatch"
    );
    let unreadable = StoredJob { refusal: None, input: Err("EOF".into()) };
    assert_eq!(message(find(unreadable, None)), "EOF");
    let foreign = StoredJob { refusal: Some("foreign".into()), input: Err("EOF".into()) };
    assert_eq!(message(find(foreign, None)), "foreign");
    let mut silent = job("v", AgentRole::Verifier, RuntimeJobState::Succeeded);
    assert_eq!(
        message(completed_verifier(&vec![silent], &vec![stored(true, None)], None, &at())),
        "successful verifier output missing"
    );
    silent = job("v", AgentRole::Verifier, RuntimeJobState::Succeeded);
    silent.context_request = Some(artifact("request"));
    assert_eq!(
        completed_verifier(&vec![silent], &vec![stored(true, None)], None, &at()).unwrap(),
        None
    );
}

#[test]
fn checks_run_under_the_planned_policy_inside_the_workspace() {
    assert!(same_check_policy(&Some("h".into()), "h", true).is_ok());
    assert_eq!(
        message(same_check_policy(&None, "h", false)),
        "SOURCE_DRIFT: check policy changed; replan/revalidation required"
    );
    assert_eq!(
        message(same_check_policy(&Some("x".into()), "h", true)),
        "SOURCE_DRIFT: check policy changed before launch; replan/revalidation required"
    );
    assert!(check_directory(&strings(&["w", "a"]), &strings(&["w"])).is_ok());
    assert_eq!(
        message(check_directory(&strings(&["x"]), &strings(&["w"]))),
        "verification cwd escapes workspace"
    );
    assert_eq!(
        summarize_check("unit", &Some(1), &Some("a\"b".into())),
        "canonical check unit: exit Some(1), failure Some(\"a\\\"b\")"
    );
    assert_eq!(
        captured_summary(3),
        "captured exact file changes; scope violations: 3"
    );
    assert_eq!(executor_of(Some("a"), Some("b"), "e").unwrap(), "a");
    assert_eq!(executor_of(None, Some("b"), "e").unwrap(), "b");
    assert_eq!(
        message(executor_of(None, None, "e")),
        "executor launch failed before issued job was persisted: e"
    );
    assert!(check_indexed(0, true).is_ok());
    assert_eq!(message(check_indexed(1, false)), "accepted source could not be indexed");
    assert_eq!(
        message(check_indexed(1, true)),
        "accepted source could not be indexed; planner review required"
    );
    assert_eq!(message(check_planned(false)), "SOURCE_DRIFT during planner invocation");
    assert_eq!(
        say_relaunch("task:a", 1),
        "task:a: attempt 1 of 2; workspace proven unchanged since the issued baseline"
    );
    assert_eq!(
        no_history("plan:a"),
        "no runtime history for plan:a; there is nothing agentctl captured to discard"
    );
    let mut index = snapshot(vec![file("a", "1")]);
    index.index_hash = "other".into();
    assert!(check_restored(index, &snapshot(vec![file("a", "1")])).is_ok());
    assert_eq!(
        message(check_restored(snapshot(vec![]), &snapshot(vec![file("a", "1")]))),
        "workspace could not be restored to the last verified source"
    );
}

fn bare_task(id: &str) -> TaskPacket {
    TaskPacket {
        task_id: id.into(),
        objective: "o".into(),
        dependencies: vec![],
        read_scope: vec![],
        write_scope: vec![],
        graph_entities: vec![],
        invariant_refs: vec![],
        verification: VerificationRequirements {
            requirement_refs: vec![],
            evidence_required: false,
        },
    }
}

#[test]
fn branches_are_reconciled_in_the_order_of_their_tasks() {
    let tasks = vec![bare_task("task:a"), bare_task("task:b")];
    let branch = |id: &str, generation: Option<&str>| {
        let mut p = pending(id);
        p.ontology_generation = generation.map(str::to_owned);
        p
    };
    let branches = vec![branch("task:b", Some("g")), branch("task:a", Some("g"))];
    assert_eq!(next_branch(&branches, &tasks).unwrap(), (1, 0));
    assert_eq!(
        message(next_branch(&vec![branch("task:x", Some("g"))], &tasks)),
        "branch task is absent from plan"
    );
    assert_eq!(
        message(next_branch(&vec![branch("task:a", None)], &tasks)),
        "UNKNOWN: branch lacks issued ontology generation"
    );
    let states = vec![status("task:b", TaskState::Verifying)];
    assert_eq!(
        pending_task(&pending("task:b"), &tasks, &states).unwrap(),
        (1, TaskState::Verifying)
    );
    assert_eq!(
        message(pending_task(&pending("task:x"), &tasks, &states)),
        "pending task not in plan"
    );
    assert_eq!(
        message(pending_task(&pending("task:a"), &tasks, &states)),
        "pending task missing"
    );
}

#[test]
fn approvals_are_applied_on_unchanged_ground_alone() {
    let ledger = escalated();
    let b = approved_budget(500, &limits(), &ledger);
    assert_eq!((b.round_limit, b.max_escalations, b.escalations_used), (100, 0, 0));
    let policy = ProjectPolicy {
        protected: vec![],
        verification: vec![],
        commands: vec![],
        invariants: vec![],
        max_agents: None,
        deny_network: false,
    };
    let facts = || ApprovalFacts {
        policy_hash: run().policy_hash,
        unchanged: true,
        generation: Some(generation(1)),
        source_hash: "source".into(),
        additions: vec![AdditionFacts { path_refusal: None, symlinked: false }],
    };
    let check = |f: &ApprovalFacts, requested: Vec<ScopePath>, excluded: Vec<ScopePath>| {
        check_approval(
            &run(),
            &ledger,
            &decision(DecisionKind::Approve),
            &policy,
            &requested,
            &excluded,
            f,
        )
    };
    assert!(check(&facts(), vec![], vec![]).is_ok());
    assert!(check(&facts(), vec![dir("lib")], vec![]).is_ok());
    assert!(check(&facts(), vec![dir("src")], vec![]).is_err());
    assert!(check(&facts(), vec![], vec![dir("lib")]).is_err());
    let mut drifted = facts();
    drifted.policy_hash = "other".into();
    assert!(check(&drifted, vec![], vec![]).is_err());
    let mut moved = facts();
    moved.unchanged = false;
    assert!(message(check(&moved, vec![], vec![])).starts_with("SOURCE_DRIFT"));
    let mut reindexed = facts();
    reindexed.generation = Some(generation(2));
    assert!(check(&reindexed, vec![], vec![]).is_err());
    assert_eq!(
        message(decided_task(&vec![], &decision(DecisionKind::Approve))),
        "decision names an unknown task"
    );
    let unissued = ContextLedger::new(AgentRole::Executor, None);
    assert_eq!(
        message(check_deltas(&unissued, &vec![])),
        "context ledger has no issued base"
    );
    assert!(check_deltas(&ledger, &vec![]).is_ok());
}

#[test]
fn only_executors_escalate() {
    assert_eq!(allowance(AgentRole::Executor, &limits()), (2, 1));
    assert_eq!(allowance(AgentRole::Verifier, &limits()), (1, 0));
    let ledger = ContextLedger::new(AgentRole::Verifier, Some("task:a".into()));
    let outside = vec![item(0, ItemOutcome::OutsideEnvelope, &["lib/a"])];
    for (role, expected, code) in [
        (AgentRole::Executor, Verdict::Escalate, None),
        (AgentRole::Verifier, Verdict::Denied, Some("ESCALATION_NOT_PERMITTED")),
    ] {
        let (rounds, escalations) = allowance(role, &limits());
        let b = budget(80, &limits(), &ledger, rounds, escalations);
        let (found, said) = verdict(&outside, 10, &b);
        assert_eq!(found, expected);
        assert_eq!(said.as_deref(), code);
    }
}
