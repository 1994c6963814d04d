//! One launched provider process: when it is stopped, how what it left behind is
//! read, and what its job comes to.
use crate::error::{invalid, Error};
use crate::planning::scope;
use crate::planning::scope::ScopePath;
use crate::manifest::{SuppliedKind, SuppliedSource};
use crate::protocol::{AgentRole, VerificationDecision, VerificationPacket, VerificationTarget};
use crate::protocol;
use crate::runtime::config::ContextVisibility;
use crate::runtime::dispatch;
use crate::runtime::dispatch::{provider_failure, Failure, FailureView};
use crate::runtime::record::{OutcomeClass, RuntimeJob, RuntimeJobState};
use crate::text;
use vstd::prelude::*;

verus! {

// ---------------------------------------------------------------------------
// Before launch
// ---------------------------------------------------------------------------

/// How many bytes of input a job may be issued.
pub const INPUT_BYTES: usize = 262144;

/// Refuses an input that is larger than a job may be issued.
pub fn bounded_input(bytes: usize) -> (r: Result<(), Error>)
    ensures
        crate::error::settles(
            r,
            if bytes <= INPUT_BYTES {
                None
            } else {
                Some("bounded runtime input exceeds 256 KiB"@)
            },
        ),
{
    if bytes <= INPUT_BYTES {
        Ok(())
    } else {
        invalid("bounded runtime input exceeds 256 KiB")
    }
}

/// The repository paths that a worker may read and write.
#[derive(Debug, PartialEq, Eq)]
pub struct IssuedVisibility {
    pub read_files: Vec<String>,
    pub write_paths: Vec<String>,
}

/// The paths of the files that were supplied whole, from the `i`-th on.
pub open spec fn whole_files(paths: Seq<SuppliedSource>, i: int) -> Seq<Seq<char>>
    decreases paths.len() - i,
{
    if i < 0 || i >= paths.len() {
        Seq::empty()
    } else if paths[i].kind == SuppliedKind::File && !paths[i].truncated {
        seq![paths[i].path@] + whole_files(paths, i + 1)
    } else {
        whole_files(paths, i + 1)
    }
}

/// The paths of some scopes.
pub open spec fn scope_paths(scopes: Seq<ScopePath>) -> Seq<Seq<char>> {
    scopes.map_values(|s: ScopePath| s.at())
}

/// What a worker may see: only where visibility is limited to what was issued,
/// and never for a planner. It reads what it was issued whole, and writes its
/// own write scope.
pub fn issued_visibility(
    visibility: ContextVisibility,
    role: AgentRole,
    paths: &Vec<SuppliedSource>,
    write_scope: &Vec<ScopePath>,
) -> (r: Option<IssuedVisibility>)
    ensures
        r is Some <==> visibility == ContextVisibility::Issued && role != AgentRole::Planner,
        r matches Some(v) ==> text::texts(v.read_files@) == whole_files(paths@, 0) && text::texts(
            v.write_paths@,
        ) == scope_paths(write_scope@),
{
    if !(visibility == ContextVisibility::Issued && role != AgentRole::Planner) {
        return None;
    }
    let mut read_files: Vec<String> = Vec::new();
    assert(text::texts(read_files@) + whole_files(paths@, 0) =~= whole_files(paths@, 0));
    let mut i: usize = 0;
    while i < paths.len()
        invariant
            i <= paths@.len(),
            text::texts(read_files@) + whole_files(paths@, i as int) == whole_files(paths@, 0),
        decreases paths@.len() - i,
    {
        if paths[i].kind == SuppliedKind::File && !paths[i].truncated {
            let ghost so_far = text::texts(read_files@);
            let ghost rest = whole_files(paths@, i + 1);
            read_files.push(paths[i].path.clone());
            proof {
                let path = paths@[i as int].path@;
                assert(text::texts(read_files@) =~= so_far.push(path));
                assert(so_far.push(path) + rest =~= so_far + (seq![path] + rest));
            }
        }
        i += 1;
    }
    assert(text::texts(read_files@) + whole_files(paths@, i as int) =~= text::texts(read_files@));
    let mut write_paths: Vec<String> = Vec::new();
    let mut k: usize = 0;
    while k < write_scope.len()
        invariant
            k <= write_scope@.len(),
            text::texts(write_paths@) == scope_paths(write_scope@).take(k as int),
        decreases write_scope@.len() - k,
    {
        let ghost so_far = text::texts(write_paths@);
        write_paths.push(write_scope[k].path().to_owned());
        assert(text::texts(write_paths@) =~= so_far.push(write_scope@[k as int].at()));
        assert(scope_paths(write_scope@).take(k + 1) =~= scope_paths(write_scope@).take(
            k as int,
        ).push(write_scope@[k as int].at()));
        k += 1;
    }
    assert(scope_paths(write_scope@).take(k as int) =~= scope_paths(write_scope@));
    Some(IssuedVisibility { read_files, write_paths })
}

/// What a process may do.
#[derive(Debug, Clone, Copy, PartialEq, Eq, Structural)]
pub struct Rights {
    pub writable: bool,
    pub network: bool,
}

/// What a worker of a role may do under its profile: only an executor writes,
/// and a profile only ever takes rights away.
pub fn rights(role: AgentRole, read_only: bool, network: bool) -> (r: Rights)
    ensures
        r.writable == (role == AgentRole::Executor && !read_only),
        r.network == network,
{
    Rights { writable: role == AgentRole::Executor && !read_only, network }
}

// ---------------------------------------------------------------------------
// While it runs
// ---------------------------------------------------------------------------

/// Why a running process was stopped.
#[derive(Debug, Clone, Copy, PartialEq, Eq, Structural)]
pub enum Interruption {
    Cancelled,
    Timeout,
}

/// What is known of a running process.
#[derive(Debug, Clone, Copy, PartialEq, Eq, Structural)]
pub struct Watch {
    pub timeout_ms: u64,
    pub cancellation_checked: bool,
    pub timeout_checked: bool,
    pub interruption: Option<Interruption>,
}

impl Watch {
    pub fn new(timeout_ms: u64) -> (r: Self)
        ensures
            r == (Watch {
                timeout_ms,
                cancellation_checked: false,
                timeout_checked: false,
                interruption: None,
            }),
    {
        Watch {
            timeout_ms,
            cancellation_checked: false,
            timeout_checked: false,
            interruption: None,
        }
    }

    /// Whether the process is to be stopped because it was cancelled; asked for
    /// at most once.
    pub fn cancel(&mut self, cancelled: bool) -> (r: bool)
        ensures
            r == (cancelled && !old(self).cancellation_checked),
            *final(self) == (Watch {
                cancellation_checked: old(self).cancellation_checked || cancelled,
                ..*old(self)
            }),
    {
        let stop: bool = cancelled && !self.cancellation_checked;
        if stop {
            self.cancellation_checked = true;
        }
        stop
    }

    /// Whether the process is to be stopped because it ran out of time; asked
    /// for at most once, and never of one that was already stopped.
    pub fn expire(&mut self, elapsed_ms: u128) -> (r: bool)
        ensures
            r == (old(self).interruption is None && !old(self).timeout_checked && elapsed_ms > old(
                self,
            ).timeout_ms),
            *final(self) == (Watch {
                timeout_checked: old(self).timeout_checked || r,
                ..*old(self)
            }),
    {
        let stop: bool = self.interruption.is_none() && !self.timeout_checked && elapsed_ms
            > self.timeout_ms as u128;
        if stop {
            self.timeout_checked = true;
        }
        stop
    }

    /// Records that stopping the process took effect.
    pub fn stopped(&mut self, why: Interruption)
        ensures
            *final(self) == (Watch { interruption: Some(why), ..*old(self) }),
    {
        self.interruption = Some(why);
    }
}

// ---------------------------------------------------------------------------
// What it left behind
// ---------------------------------------------------------------------------

/// An infrastructure signal that a provider emitted.
#[derive(Debug, PartialEq, Eq)]
pub struct Fault {
    pub retryable: bool,
    pub summary: String,
}

/// What a finished process left behind.
#[derive(Debug, PartialEq, Eq)]
pub struct Exchange {
    pub interruption: Option<Interruption>,
    pub timeout_ms: u64,
    /// Why its output could not be had, if it could not.
    pub failure: Option<String>,
    pub exit: Option<i32>,
    pub fault: Option<Fault>,
    /// What the adapter has against the reply, if anything.
    pub uncollected: Option<String>,
}

/// A number with its sign.
pub open spec fn signed(n: int) -> Seq<char> {
    if n < 0 {
        "-"@ + text::digits((-n) as nat)
    } else {
        text::digits(n as nat)
    }
}

/// The name of an exit status.
pub open spec fn exit_name(exit: Option<i32>) -> Seq<char> {
    match exit {
        Some(n) => "Some("@ + signed(n as int) + ")"@,
        None => "None"@,
    }
}

pub fn name_exit(exit: Option<i32>) -> (r: String)
    ensures
        r@ == exit_name(exit),
{
    match exit {
        Some(n) => {
            let number: String = if n < 0 {
                let size: String = text::decimal((-(n as i64)) as u64);
                text::join2("-", size.as_str())
            } else {
                text::decimal(n as u64)
            };
            text::join3("Some(", number.as_str(), ")")
        },
        None => "None".to_owned(),
    }
}

/// A failed exchange, read with the provider's own signals. They are consulted
/// only here, never to reinterpret an exchange that succeeded.
pub open spec fn faulted(fault: Option<Fault>, fallback: Seq<char>) -> FailureView {
    match fault {
        Some(f) => if f.retryable {
            dispatch::kept(
                OutcomeClass::RetryableProviderFailure,
                fallback + ": "@ + f.summary@,
            )
        } else {
            dispatch::kept(OutcomeClass::NonretryableProviderFailure, f.summary@)
        },
        None => dispatch::kept(OutcomeClass::RetryableProviderFailure, fallback),
    }
}

fn read_fault(fault: &Option<Fault>, fallback: &str) -> (r: Failure)
    ensures
        r@ == faulted(*fault, fallback@),
{
    match fault {
        Some(f) => if f.retryable {
            let detail: String = text::join3(fallback, ": ", f.summary.as_str());
            provider_failure(OutcomeClass::RetryableProviderFailure, detail.as_str())
        } else {
            provider_failure(OutcomeClass::NonretryableProviderFailure, f.summary.as_str())
        },
        None => provider_failure(OutcomeClass::RetryableProviderFailure, fallback),
    }
}

/// Why an exchange gave no reply, if it gave none. `document` is what a reply
/// should be.
pub open spec fn exchange_failure(x: Exchange, document: Seq<char>) -> Option<FailureView> {
    match x.interruption {
        Some(Interruption::Timeout) => Some(
            dispatch::kept(
                OutcomeClass::RetryableProviderFailure,
                "provider timed out after "@ + text::digits(x.timeout_ms as nat) + " ms"@,
            ),
        ),
        Some(Interruption::Cancelled) => Some(FailureView::Invalid("cancelled"@)),
        None => match x.failure {
            Some(failure) => Some(
                dispatch::kept(OutcomeClass::RetryableProviderFailure, failure@),
            ),
            None => if x.exit != Some(0i32) {
                Some(faulted(x.fault, "provider exited "@ + exit_name(x.exit)))
            } else {
                match x.uncollected {
                    Some(e) => Some(
                        faulted(
                            x.fault,
                            "reply is not exactly one "@ + document + " JSON document ("@ + e@
                                + ")"@,
                        ),
                    ),
                    None => None,
                }
            },
        },
    }
}

/// Reads an exchange: a reply was had, or why none was.
pub fn read_exchange(x: &Exchange, document: &str) -> (r: Result<(), Failure>)
    ensures
        match r {
            Ok(()) => exchange_failure(*x, document@) is None,
            Err(f) => exchange_failure(*x, document@) == Some(f@),
        },
{
    match x.interruption {
        Some(Interruption::Timeout) => {
            let limit: String = text::decimal(x.timeout_ms);
            let detail: String = text::join3("provider timed out after ", limit.as_str(), " ms");
            return Err(
                provider_failure(OutcomeClass::RetryableProviderFailure, detail.as_str()),
            );
        },
        Some(Interruption::Cancelled) => {
            return Err(Failure::Invalid("cancelled".to_owned()));
        },
        None => {},
    }
    if let Some(failure) = &x.failure {
        return Err(provider_failure(OutcomeClass::RetryableProviderFailure, failure.as_str()));
    }
    let clean: bool = match x.exit {
        Some(n) => n == 0,
        None => false,
    };
    if !clean {
        let name: String = name_exit(x.exit);
        let detail: String = text::join2("provider exited ", name.as_str());
        return Err(read_fault(&x.fault, detail.as_str()));
    }
    if let Some(e) = &x.uncollected {
        let head: String = text::join3("reply is not exactly one ", document, " JSON document (");
        let detail: String = text::join3(head.as_str(), e.as_str(), ")");
        return Err(read_fault(&x.fault, detail.as_str()));
    }
    Ok(())
}

// ---------------------------------------------------------------------------
// The reply
// ---------------------------------------------------------------------------

/// What a schema and a protocol rule have against a reply.
#[derive(Debug, PartialEq, Eq)]
pub struct ReplyFacts {
    pub malformed: Option<String>,
    pub refusal: Option<String>,
}

/// A reply that does not match its schema.
pub open spec fn malformed(document: Seq<char>, e: Seq<char>) -> FailureView {
    dispatch::kept(
        OutcomeClass::RetryableProviderFailure,
        "reply does not match the "@ + document + " schema ("@ + e + ")"@,
    )
}

/// A reply that breaks a rule of its contract.
pub open spec fn broken(rule: Seq<char>, detail: Seq<char>) -> FailureView {
    dispatch::kept(OutcomeClass::ValidationFailure, "["@ + rule + "] "@ + detail)
}

fn say_malformed(document: &str, e: &str) -> (r: Failure)
    ensures
        r@ == malformed(document@, e@),
{
    let head: String = text::join3("reply does not match the ", document, " schema (");
    let detail: String = text::join3(head.as_str(), e, ")");
    provider_failure(OutcomeClass::RetryableProviderFailure, detail.as_str())
}

fn say_broken(rule: &str, detail: &str) -> (r: Failure)
    ensures
        r@ == broken(rule@, detail@),
{
    let head: String = text::join3("[", rule, "] ");
    let said: String = text::join2(head.as_str(), detail);
    provider_failure(OutcomeClass::ValidationFailure, said.as_str())
}

/// What a result says of whose it is.
#[derive(Debug, PartialEq, Eq)]
pub struct ResultIdentity {
    pub task_id: String,
    pub executor_job_id: String,
    pub evidence: Vec<String>,
}

/// What is said of a result that names another task or job.
pub open spec fn misnamed(
    result: ResultIdentity,
    task: Option<Seq<char>>,
    job: Seq<char>,
) -> Seq<char> {
    "result names task "@ + result.task_id@ + " / executor job "@ + result.executor_job_id@
        + ", but this job is task "@ + (match task {
        Some(t) => t,
        None => "-"@,
    }) + " / job "@ + job
}

pub const EVIDENCE_RULE: &'static str = "evidence must be []; agentctl captures evidence itself";

/// Why the reply of an executor is not taken, if it is not.
pub open spec fn result_failure(
    facts: ReplyFacts,
    document: Seq<char>,
    result: ResultIdentity,
    task: Option<Seq<char>>,
    job: Seq<char>,
) -> Option<FailureView> {
    match (facts.malformed, facts.refusal) {
        (Some(e), _) => Some(malformed(document, e@)),
        (None, Some(e)) => Some(broken("EXEC-OUTPUT"@, e@)),
        (None, None) => if !(task == Some(result.task_id@) && result.executor_job_id@ == job) {
            Some(broken("EXEC-OUTPUT"@, misnamed(result, task, job)))
        } else if result.evidence@.len() != 0 {
            Some(broken("EXEC-OUTPUT"@, EVIDENCE_RULE@))
        } else {
            None
        },
    }
}

/// The characters of an optional text.
pub open spec fn borrowed(o: Option<&str>) -> Option<Seq<char>> {
    match o {
        Some(s) => Some(s@),
        None => None,
    }
}

/// Takes the reply of an executor. Its status is not judged here: that it cannot
/// do the task is an honest answer.
pub fn take_result(
    facts: &ReplyFacts,
    document: &str,
    result: &ResultIdentity,
    task: Option<&str>,
    job: &str,
) -> (r: Result<(), Failure>)
    ensures
        match r {
            Ok(()) => result_failure(*facts, document@, *result, borrowed(task), job@) is None,
            Err(f) => result_failure(*facts, document@, *result, borrowed(task), job@) == Some(f@),
        },
{
    if let Some(e) = &facts.malformed {
        return Err(say_malformed(document, e.as_str()));
    }
    if let Some(e) = &facts.refusal {
        return Err(say_broken("EXEC-OUTPUT", e.as_str()));
    }
    let own: bool = match task {
        Some(t) => text::same(t, result.task_id.as_str()),
        None => false,
    };
    if !(own && text::same(result.executor_job_id.as_str(), job)) {
        let shown: &str = match task {
            Some(t) => t,
            None => "-",
        };
        let first: String = text::join3(
            "result names task ",
            result.task_id.as_str(),
            " / executor job ",
        );
        let second: String = text::join3(
            first.as_str(),
            result.executor_job_id.as_str(),
            ", but this job is task ",
        );
        let third: String = text::join3(second.as_str(), shown, " / job ");
        let detail: String = text::join2(third.as_str(), job);
        assert(detail@ =~= misnamed(*result, borrowed(task), job@));
        return Err(say_broken("EXEC-OUTPUT", detail.as_str()));
    }
    if result.evidence.len() != 0 {
        return Err(say_broken("EXEC-OUTPUT", EVIDENCE_RULE));
    }
    Ok(())
}

pub const VERBATIM_RULE: &'static str =
    "verifier_job_id, target and evidence must equal the issued job id, target and evidence verbatim";

/// Whether a proof repeats what its verifier was issued.
pub open spec fn verbatim(
    proof: VerificationPacket,
    job: Seq<char>,
    target: VerificationTarget,
    evidence: Seq<Seq<char>>,
) -> bool {
    &&& proof.verifier_job_id@ == job
    &&& protocol::same_target(proof.target, target)
    &&& text::texts(proof.evidence@) == evidence
}

/// Why the reply of a verifier is not taken, if it is not.
pub open spec fn proof_failure(
    facts: ReplyFacts,
    document: Seq<char>,
    proof: VerificationPacket,
    job: Seq<char>,
    target: VerificationTarget,
    evidence: Seq<Seq<char>>,
) -> Option<FailureView> {
    match (facts.malformed, facts.refusal) {
        (Some(e), _) => Some(malformed(document, e@)),
        (None, Some(e)) => Some(broken("VER-REFS"@, e@)),
        (None, None) => if !verbatim(proof, job, target, evidence) {
            Some(broken("VER-OUTPUT"@, VERBATIM_RULE@))
        } else {
            None
        },
    }
}

/// Takes the reply of a verifier, and gives the decision that it reports. A
/// request for context is not a decision and is never counted as one.
pub fn take_proof(
    facts: &ReplyFacts,
    document: &str,
    proof: &VerificationPacket,
    requests_context: bool,
    job: &str,
    target: &VerificationTarget,
    evidence: &Vec<String>,
) -> (r: Result<Option<VerificationDecision>, Failure>)
    ensures
        match r {
            Ok(reported) => proof_failure(
                *facts,
                document@,
                *proof,
                job@,
                *target,
                text::texts(evidence@),
            ) is None && reported == if requests_context {
                None
            } else {
                Some(proof.decision)
            },
            Err(f) => proof_failure(
                *facts,
                document@,
                *proof,
                job@,
                *target,
                text::texts(evidence@),
            ) == Some(f@),
        },
{
    if let Some(e) = &facts.malformed {
        return Err(say_malformed(document, e.as_str()));
    }
    if let Some(e) = &facts.refusal {
        return Err(say_broken("VER-REFS", e.as_str()));
    }
    if !(text::same(proof.verifier_job_id.as_str(), job) && proof.target.same(target)
        && text::same_texts(&proof.evidence, evidence)) {
        return Err(say_broken("VER-OUTPUT", VERBATIM_RULE));
    }
    Ok(
        if requests_context {
            None
        } else {
            Some(proof.decision)
        },
    )
}

/// Refuses the reply of a planner during which the workspace changed.
pub fn check_planned(unchanged: bool) -> (r: Result<(), Error>)
    ensures
        crate::error::settles(
            r,
            if unchanged {
                None
            } else {
                Some("SOURCE_DRIFT during planner invocation"@)
            },
        ),
{
    if unchanged {
        Ok(())
    } else {
        invalid("SOURCE_DRIFT during planner invocation")
    }
}

/// Takes the reply of a planner by its shape alone; the plan itself is validated
/// by whoever asked for it.
pub fn take_plan(malformed_by: &Option<String>, document: &str) -> (r: Result<(), Failure>)
    ensures
        match r {
            Ok(()) => malformed_by is None,
            Err(f) => malformed_by matches Some(e) && f@ == malformed(document@, e@),
        },
{
    match malformed_by {
        Some(e) => Err(say_malformed(document, e.as_str())),
        None => Ok(()),
    }
}

// ---------------------------------------------------------------------------
// Settlement
// ---------------------------------------------------------------------------

pub const UNCLASSIFIED: &'static str = "unclassified failure after provider launch; no fallback";

/// That no provider was reached can only be said before the launch: nothing that
/// a running process or its reply says makes room for another route.
pub fn after_launch(failure: Failure, launched: bool) -> (r: Failure)
    ensures
        r@ == if failure@ is Unavailable && launched {
            FailureView::Invalid(UNCLASSIFIED@)
        } else {
            failure@
        },
{
    match failure {
        Failure::Unavailable(reason) => if launched {
            Failure::Invalid(UNCLASSIFIED.to_owned())
        } else {
            Failure::Unavailable(reason)
        },
        other => other,
    }
}

/// What a job comes to.
pub open spec fn outcome(cancelled: bool, succeeded: bool) -> (RuntimeJobState, Seq<char>) {
    if cancelled {
        (RuntimeJobState::Cancelled, "JOB_CANCELLED"@)
    } else if succeeded {
        (RuntimeJobState::Succeeded, "JOB_SUCCEEDED"@)
    } else {
        (RuntimeJobState::Failed, "JOB_FAILED"@)
    }
}

/// The state that a finished job is in, and the phase that records it.
pub fn finished(cancelled: bool, succeeded: bool) -> (r: (RuntimeJobState, &'static str))
    ensures
        (r.0, r.1@) == outcome(cancelled, succeeded),
{
    if cancelled {
        (RuntimeJobState::Cancelled, "JOB_CANCELLED")
    } else if succeeded {
        (RuntimeJobState::Succeeded, "JOB_SUCCEEDED")
    } else {
        (RuntimeJobState::Failed, "JOB_FAILED")
    }
}

/// The class that a job's failure is recorded with, if it has one.
pub fn failure_class(failure: &Failure) -> (r: Option<OutcomeClass>)
    ensures
        r == match failure@ {
            FailureView::Provider { class, .. } => Some(class),
            _ => None,
        },
{
    match failure {
        Failure::Provider { class, .. } => Some(*class),
        _ => None,
    }
}

/// How much of a failure is recorded with its job.
pub const JOB_FAILURE_CHARS: usize = 1024;

/// What is recorded of a failure, which is said in full.
pub fn failed_job(said: &str) -> (r: String)
    ensures
        r@ == text::clipped(said@, 1024),
{
    text::clip(said, JOB_FAILURE_CHARS)
}

/// Records what a job came to: its state, and of a failure its text, cut to what
/// is recorded, and its class. Nothing else of the job changes. The result is the
/// phase that records it. `failure` is what the job failed with, and `said` the
/// same in words.
pub fn finish_job(job: &mut RuntimeJob, cancelled: bool, failure: Option<&Failure>, said: &str) -> (r:
    &'static str)
    ensures
        r@ == outcome(cancelled, failure is None).1,
        *final(job) == (RuntimeJob {
            state: outcome(cancelled, failure is None).0,
            failure: final(job).failure,
            failure_class: match failure {
                Some(f) => match f@ {
                    FailureView::Provider { class, .. } => Some(class),
                    _ => None,
                },
                None => None,
            },
            ..*old(job)
        }),
        match failure {
            Some(_) => final(job).failure matches Some(m) && m@ == text::clipped(said@, 1024),
            None => final(job).failure is None,
        },
{
    let (state, phase) = finished(cancelled, failure.is_none());
    job.state = state;
    match failure {
        Some(f) => {
            job.failure = Some(failed_job(said));
            job.failure_class = failure_class(f);
        },
        None => {
            job.failure = None;
            job.failure_class = None;
        },
    }
    phase
}

/// A reply that is taken from an executor is of its own task and job.
pub proof fn law_taken_results_are_the_jobs_own(
    facts: ReplyFacts,
    document: Seq<char>,
    result: ResultIdentity,
    task: Option<Seq<char>>,
    job: Seq<char>,
)
    requires
        result_failure(facts, document, result, task, job) is None,
    ensures
        task == Some(result.task_id@),
        result.executor_job_id@ == job,
        result.evidence@.len() == 0,
{
}

} // verus!
