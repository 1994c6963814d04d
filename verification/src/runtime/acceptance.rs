//! How the result of an executor becomes accepted work: it is judged against
//! what was captured, checked deterministically, verified by another job, and
//! only then recorded.
use crate::error::{invalid, Error};
use crate::planning::model::{SourceStateRef, VerificationProfile};
use crate::planning::model;
use crate::planning::scope;
use crate::planning::scope::ScopePath;
use crate::planning::validation;
use crate::protocol::{
    find_task, AgentRole, PlanPacket, TaskPacket, TaskState, VerificationDecision, VerificationPacket,
    VerificationTarget,
};
use crate::runtime::concurrency::CompatibilityDecision;
use crate::runtime::config::MAX_PLAN_CORRECTIONS;
use crate::runtime::dispatch::{Failure, FailureView};
use crate::runtime::experiment;
use crate::runtime::history;
use crate::runtime::history::{Document, JobInput};
use crate::runtime::issue::find_profile;
use crate::runtime::issue;
use crate::runtime::record;
use crate::runtime::record::{
    AcceptedTask, OutcomeClass, PendingTask, RunRecord, RuntimeJob, RuntimeJobState,
};
use crate::source::ArtifactRef;
use crate::store;
use crate::store::{task_state, TaskStatus};
use crate::text;
use vstd::prelude::*;

verus! {

// ---------------------------------------------------------------------------
// The executor
// ---------------------------------------------------------------------------

/// The states that a runnable task goes through before its executor is invoked.
pub fn to_executing(state: TaskState) -> (r: Vec<TaskState>)
    ensures
        r@ == if state == TaskState::Planned {
            seq![TaskState::Ready, TaskState::Executing]
        } else if state != TaskState::Executing {
            seq![TaskState::Executing]
        } else {
            Seq::empty()
        },
{
    let mut path: Vec<TaskState> = Vec::new();
    if state == TaskState::Planned {
        path.push(TaskState::Ready);
    }
    if state != TaskState::Executing {
        path.push(TaskState::Executing);
    }
    path
}

/// Whether a job is a new executor of a task.
pub open spec fn new_executor(
    job: RuntimeJob,
    previous: Seq<Seq<char>>,
    inputs: Seq<Document<JobInput>>,
    task: Seq<char>,
) -> bool {
    &&& job.role == AgentRole::Executor
    &&& !previous.contains(job.job_id@)
    &&& match history::document(inputs, job.input, 0) {
        Some(input) => validation::is_text(input.task_id, task),
        None => false,
    }
}

/// Whether a job was created later than another one, or at the same time under
/// a greater identifier.
pub open spec fn later(a: RuntimeJob, b: RuntimeJob) -> bool {
    a.created_at_ms > b.created_at_ms || a.created_at_ms == b.created_at_ms && text::before(
        b.job_id@,
        a.job_id@,
    )
}

/// The last of the new executors of a task, among the first `n` jobs.
pub open spec fn last_executor(
    jobs: Seq<RuntimeJob>,
    previous: Seq<Seq<char>>,
    inputs: Seq<Document<JobInput>>,
    task: Seq<char>,
    n: int,
) -> Option<int>
    decreases n,
{
    if n <= 0 {
        None
    } else {
        let before = last_executor(jobs, previous, inputs, task, n - 1);
        if new_executor(jobs[n - 1], previous, inputs, task) {
            match before {
                Some(k) => if later(jobs[k], jobs[n - 1]) {
                    Some(k)
                } else {
                    Some(n - 1)
                },
                None => Some(n - 1),
            }
        } else {
            before
        }
    }
}

/// Finds the job that a failed invocation left behind. Retries are fresh jobs,
/// and what was captured belongs to the last one.
pub fn find_last_executor(
    jobs: &Vec<RuntimeJob>,
    previous: &Vec<String>,
    inputs: &Vec<Document<JobInput>>,
    task: &str,
) -> (r: Option<usize>)
    ensures
        match r {
            Some(k) => k < jobs@.len() && last_executor(
                jobs@,
                text::texts(previous@),
                inputs@,
                task@,
                jobs@.len() as int,
            ) == Some(k as int),
            None => last_executor(
                jobs@,
                text::texts(previous@),
                inputs@,
                task@,
                jobs@.len() as int,
            ) is None,
        },
{
    let ghost known = text::texts(previous@);
    let mut found: Option<usize> = None;
    let mut i: usize = 0;
    while i < jobs.len()
        invariant
            i <= jobs@.len(),
            known == text::texts(previous@),
            match found {
                Some(k) => k < i && last_executor(jobs@, known, inputs@, task@, i as int) == Some(
                    k as int,
                ),
                None => last_executor(jobs@, known, inputs@, task@, i as int) is None,
            },
        decreases jobs@.len() - i,
    {
        let job: &RuntimeJob = &jobs[i];
        let issued: bool = match history::read(inputs, &job.input) {
            Some(input) => validation::holds_text(&input.task_id, task),
            None => false,
        };
        if job.role == AgentRole::Executor && !text::among(previous, job.job_id.as_str()) && issued {
            let keep: bool = match found {
                Some(k) => jobs[k].created_at_ms > job.created_at_ms || jobs[k].created_at_ms
                    == job.created_at_ms && text::less(job.job_id.as_str(), jobs[k].job_id.as_str()),
                None => false,
            };
            if !keep {
                found = Some(i);
            }
        }
        i += 1;
    }
    found
}

/// What an executor reported.
#[derive(Debug, PartialEq, Eq)]
pub struct ReportedResult {
    pub succeeded: bool,
    /// The name of its status.
    pub status: String,
    pub requests_context: bool,
    pub failure: Option<ReportedFailure>,
    pub changed_paths: Vec<String>,
}

#[derive(Debug, PartialEq, Eq)]
pub struct ReportedFailure {
    pub code: String,
    pub summary: String,
}

/// What was captured of an executor's work.
#[derive(Debug, PartialEq, Eq)]
pub struct CapturedWork {
    pub changed: Vec<String>,
    pub scope_violations: usize,
}

/// How much of an executor's own diagnosis is kept.
pub const SUMMARY_CHARS: usize = 600;

pub const NOTHING_CHANGED: &'static str =
    "no files were changed; correct the plan with a replacement (agentctl run replace)";

pub const CHANGES_RETAINED: &'static str =
    "its changes are retained but not accepted; discard them with agentctl run restore, then correct the plan";

/// Whose captured changes these are: the job that the invocation returned or,
/// where it failed, the last new executor of the task. Without either there was
/// no executor.
pub fn executor_of(invoked: Option<&str>, last: Option<&str>, error: &str) -> (r: Result<
    String,
    Error,
>)
    ensures
        match (invoked, last) {
            (Some(job), _) => r matches Ok(id) && id@ == job@,
            (None, Some(job)) => r matches Ok(id) && id@ == job@,
            (None, None) => crate::error::refused(
                r,
                "executor launch failed before issued job was persisted: "@ + error@,
            ),
        },
{
    match (invoked, last) {
        (Some(job), _) => Ok(job.to_owned()),
        (None, Some(job)) => Ok(job.to_owned()),
        (None, None) => {
            let m: String = text::join2(
                "executor launch failed before issued job was persisted: ",
                error,
            );
            invalid(m.as_str())
        },
    }
}

/// What evidence says of captured changes.
pub fn captured_summary(violations: usize) -> (r: String)
    ensures
        r@ == "captured exact file changes; scope violations: "@ + text::digits(violations as nat),
{
    let n: String = text::decimal(violations as u64);
    text::join2("captured exact file changes; scope violations: ", n.as_str())
}

/// Why a task stands blocked by its executor's own, valid answer.
pub open spec fn declined(
    report: ReportedResult,
    work: CapturedWork,
    task: Seq<char>,
    job: Seq<char>,
) -> Seq<char> {
    let (code, summary) = match report.failure {
        Some(f) => (f.code@, f.summary@),
        None => ("UNSPECIFIED"@, "no failure detail"@),
    };
    "EXECUTOR_"@ + report.status@ + ": "@ + code + ": "@ + text::clipped(
        summary,
        SUMMARY_CHARS as int,
    ) + " [task "@ + task + ", executor job "@ + job + "]; "@ + (if work.changed@.len() == 0 {
        NOTHING_CHANGED@
    } else {
        CHANGES_RETAINED@
    })
}

fn say_declined(report: &ReportedResult, work: &CapturedWork, task: &str, job: &str) -> (r: String)
    ensures
        r@ == declined(*report, *work, task@, job@),
{
    let (code, summary): (&str, &str) = match &report.failure {
        Some(f) => (f.code.as_str(), f.summary.as_str()),
        None => ("UNSPECIFIED", "no failure detail"),
    };
    let shown: String = text::clip(summary, SUMMARY_CHARS);
    let a: String = text::join3("EXECUTOR_", report.status.as_str(), ": ");
    let b: String = text::join3(a.as_str(), code, ": ");
    let c: String = text::join3(b.as_str(), shown.as_str(), " [task ");
    let d: String = text::join3(c.as_str(), task, ", executor job ");
    let e: String = text::join3(d.as_str(), job, "]; ");
    text::join2(
        e.as_str(),
        if work.changed.len() == 0 {
            NOTHING_CHANGED
        } else {
            CHANGES_RETAINED
        },
    )
}

pub const REQUEST_WITH_EDITS: &'static str =
    "CONTEXT_REQUEST_WITH_EDITS: an executor requesting context must leave the workspace unchanged; its changes are retained but never accepted";

pub const OUTSIDE_SCOPE: &'static str =
    "executor wrote outside allowed scope; result retained but not accepted";

pub const EXCLUSION_VIOLATED: &'static str = "executor violated verification contract exclusions";

pub const REPORT_DIFFERS: &'static str = "executor changed-path report differs from captured files";

/// Whether a changed path is excluded.
pub open spec fn touches(changed: Seq<Seq<char>>, exclusions: Seq<ScopePath>) -> bool {
    exists|i: int| 0 <= i < changed.len() && scope::any_allows(exclusions, #[trigger] changed[i])
}

fn does_touch(changed: &Vec<String>, exclusions: &Vec<ScopePath>) -> (r: bool)
    ensures
        r == touches(text::texts(changed@), exclusions@),
{
    let ghost all = text::texts(changed@);
    let mut i: usize = 0;
    while i < changed.len()
        invariant
            i <= changed@.len(),
            all == text::texts(changed@),
            forall|k: int| 0 <= k < i ==> !scope::any_allows(exclusions@, #[trigger] all[k]),
        decreases changed@.len() - i,
    {
        assert(all[i as int] == changed@[i as int]@);
        if scope::any_permits(exclusions, changed[i].as_str()) {
            return true;
        }
        i += 1;
    }
    false
}

/// Why the work of an executor is not captured as a result, if it is not.
pub open spec fn judgement(
    report: ReportedResult,
    work: CapturedWork,
    exclusions: Seq<ScopePath>,
    task: Seq<char>,
    job: Seq<char>,
) -> Option<FailureView> {
    let changed = text::texts(work.changed@);
    if !report.succeeded && !report.requests_context {
        Some(
            FailureView::Provider {
                class: OutcomeClass::SemanticRejection,
                detail: declined(report, work, task, job),
            },
        )
    } else if report.requests_context {
        if changed.len() > 0 {
            Some(FailureView::Invalid(REQUEST_WITH_EDITS@))
        } else {
            None
        }
    } else if work.scope_violations != 0 {
        Some(FailureView::Invalid(OUTSIDE_SCOPE@))
    } else if touches(changed, exclusions) {
        Some(FailureView::Invalid(EXCLUSION_VIOLATED@))
    } else if text::texts(report.changed_paths@).to_set() != changed.to_set() {
        Some(FailureView::Invalid(REPORT_DIFFERS@))
    } else {
        None
    }
}

/// What is done with the work of an executor.
#[derive(Debug, Clone, Copy, PartialEq, Eq, Structural)]
pub enum Judged {
    /// Its request for context is relayed.
    Relay,
    /// Its work is captured as a result that awaits verification.
    Capture,
}

/// Judges what an executor reported against what was captured.
pub fn judge(
    report: &ReportedResult,
    work: &CapturedWork,
    exclusions: &Vec<ScopePath>,
    task: &str,
    job: &str,
) -> (r: Result<Judged, Failure>)
    ensures
        match r {
            Ok(j) => judgement(*report, *work, exclusions@, task@, job@) is None && j
                == if report.requests_context {
                Judged::Relay
            } else {
                Judged::Capture
            },
            Err(f) => judgement(*report, *work, exclusions@, task@, job@) == Some(f@),
        },
{
    assert(text::texts(work.changed@).len() == work.changed@.len());
    if !report.succeeded && !report.requests_context {
        return Err(
            Failure::Provider {
                class: OutcomeClass::SemanticRejection,
                detail: say_declined(report, work, task, job),
            },
        );
    }
    if report.requests_context {
        if work.changed.len() > 0 {
            return Err(Failure::Invalid(REQUEST_WITH_EDITS.to_owned()));
        }
        return Ok(Judged::Relay);
    }
    if work.scope_violations != 0 {
        return Err(Failure::Invalid(OUTSIDE_SCOPE.to_owned()));
    }
    if does_touch(&work.changed, exclusions) {
        return Err(Failure::Invalid(EXCLUSION_VIOLATED.to_owned()));
    }
    if !text::same_set(&report.changed_paths, &work.changed) {
        return Err(Failure::Invalid(REPORT_DIFFERS.to_owned()));
    }
    Ok(Judged::Capture)
}

/// A captured result that awaits verification: nothing was verified or
/// published of it yet.
pub fn capture(
    task_id: String,
    executor: String,
    before: ArtifactRef,
    after: ArtifactRef,
    diff: ArtifactRef,
    evidence: String,
    workspace: Option<String>,
    compatibility: Vec<CompatibilityDecision>,
    generation: Option<String>,
) -> (r: PendingTask)
    ensures
        r.task_id == task_id,
        r.executor == executor,
        r.before == before,
        r.after == after,
        r.diff == diff,
        r.evidence@ == seq![evidence],
        r.verifier is None,
        r.proof is None,
        r.execution_workspace == workspace,
        r.compatibility == compatibility,
        r.ontology_generation == generation,
        r.reconciled_from is None,
{
    let mut all: Vec<String> = Vec::new();
    all.push(evidence);
    PendingTask {
        task_id,
        executor,
        before,
        after,
        diff,
        evidence: all,
        verifier: None,
        proof: None,
        execution_workspace: workspace,
        compatibility,
        ontology_generation: generation,
        reconciled_from: None,
    }
}

/// Captured work of an executor that succeeded stays in its scope, touches
/// nothing excluded, and is exactly what it reported.
pub proof fn law_captured_work_is_what_was_reported(
    report: ReportedResult,
    work: CapturedWork,
    exclusions: Seq<ScopePath>,
    task: Seq<char>,
    job: Seq<char>,
    path: Seq<char>,
)
    requires
        judgement(report, work, exclusions, task, job) is None,
        !report.requests_context,
        text::texts(work.changed@).contains(path),
    ensures
        report.succeeded,
        work.scope_violations == 0,
        !scope::any_allows(exclusions, path),
        text::texts(report.changed_paths@).contains(path),
{
    let changed = text::texts(work.changed@);
    let k = choose|k: int| 0 <= k < changed.len() && changed[k] == path;
    assert(changed[k] == path);
    assert(changed.to_set().contains(path));
    assert(text::texts(report.changed_paths@).to_set().contains(path));
}

// ---------------------------------------------------------------------------
// Deterministic checks
// ---------------------------------------------------------------------------

pub const PROFILE_GONE: &'static str = "canonical verification profile disappeared";

/// Why required checks cannot be run, from the `i`-th on, if they cannot.
pub open spec fn checks_refusal(
    names: Seq<Seq<char>>,
    profiles: Seq<VerificationProfile>,
    i: int,
) -> Option<Seq<char>>
    decreases names.len() - i,
{
    if i < 0 || i >= names.len() {
        None
    } else {
        match issue::profile_at(profiles, names[i], 0) {
            None => Some(PROFILE_GONE@),
            Some(k) => if profiles[k].command_refs@.len() == 0 {
                Some(
                    "verification "@ + names[i]
                        + " has no deterministic command; configure project policy"@,
                )
            } else {
                checks_refusal(names, profiles, i + 1)
            },
        }
    }
}

/// The commands that required checks name, from the `i`-th on.
pub open spec fn commands_of(
    names: Seq<Seq<char>>,
    profiles: Seq<VerificationProfile>,
    i: int,
) -> Seq<Seq<char>>
    decreases names.len() - i,
{
    if i < 0 || i >= names.len() {
        Seq::empty()
    } else {
        (match issue::profile_at(profiles, names[i], 0) {
            Some(k) => text::texts(profiles[k].command_refs@),
            None => Seq::empty(),
        }) + commands_of(names, profiles, i + 1)
    }
}

proof fn lemma_profile_at(list: Seq<VerificationProfile>, name: Seq<char>, i: int)
    requires
        0 <= i,
    ensures
        match issue::profile_at(list, name, i) {
            Some(k) => i <= k < list.len() && list[k].name@ == name && forall|j: int|
                i <= j < k ==> (#[trigger] list[j]).name@ != name,
            None => forall|j: int| i <= j < list.len() ==> (#[trigger] list[j]).name@ != name,
        },
    decreases list.len() - i,
{
    if i < list.len() {
        lemma_profile_at(list, name, i + 1);
    }
}

proof fn lemma_commands(
    names: Seq<Seq<char>>,
    profiles: Seq<VerificationProfile>,
    i: int,
    c: Seq<char>,
)
    requires
        0 <= i,
    ensures
        commands_of(names, profiles, i).contains(c) <==> exists|n: int|
            i <= n < names.len() && #[trigger] asks_for(profiles, names[n], c),
    decreases names.len() - i,
{
    let all = commands_of(names, profiles, i);
    if i < names.len() {
        lemma_commands(names, profiles, i + 1, c);
        lemma_profile_at(profiles, names[i], 0);
        let rest = commands_of(names, profiles, i + 1);
        let own = match issue::profile_at(profiles, names[i], 0) {
            None => Seq::empty(),
            Some(at) => text::texts(profiles[at].command_refs@),
        };
        text::lemma_sum_contains(own, rest, c);
        assert(own.contains(c) <==> asks_for(profiles, names[i], c)) by {
            if let Some(k) = issue::profile_at(profiles, names[i], 0) {
                if own.contains(c) {
                    let m = choose|m: int| 0 <= m < own.len() && own[m] == c;
                    assert(profiles[k].command_refs@[m]@ == c);
                    assert(profiles[k].name@ == names[i]);
                }
                if asks_for(profiles, names[i], c) {
                    let (j, m) = choose|j: int, m: int|
                        {
                            &&& 0 <= j < profiles.len()
                            &&& (#[trigger] profiles[j]).name@ == names[i]
                            &&& forall|l: int|
                                0 <= l < j ==> (#[trigger] profiles[l]).name@ != names[i]
                            &&& 0 <= m < profiles[j].command_refs@.len()
                            &&& (#[trigger] profiles[j].command_refs@[m])@ == c
                        };
                    assert(profiles[k].name@ == names[i]);
                    assert(j == k);
                    assert(own[m] == c);
                }
            }
        }
    }
}

/// Whether the first profile of a name has a command.
pub open spec fn asks_for(profiles: Seq<VerificationProfile>, name: Seq<char>, c: Seq<char>) -> bool {
    exists|k: int, m: int|
        {
            &&& 0 <= k < profiles.len()
            &&& (#[trigger] profiles[k]).name@ == name
            &&& forall|j: int| 0 <= j < k ==> (#[trigger] profiles[j]).name@ != name
            &&& 0 <= m < profiles[k].command_refs@.len()
            &&& (#[trigger] profiles[k].command_refs@[m])@ == c
        }
}

/// The checks that a task requires run the commands of every required profile, and no
/// other ones, each once and in order. `v` is what `required_commands` gives.
pub proof fn law_every_required_check_is_run(
    names: Seq<String>,
    profiles: Seq<VerificationProfile>,
    v: Seq<String>,
    c: Seq<char>,
)
    requires
        checks_refusal(text::texts(names), profiles, 0) is None,
        text::texts(v) == text::in_order(commands_of(text::texts(names), profiles, 0)),
    ensures
        (exists|i: int| 0 <= i < v.len() && (#[trigger] v[i])@ == c) <==> exists|n: int|
            0 <= n < names.len() && asks_for(profiles, (#[trigger] names[n])@, c),
        forall|i: int, j: int|
            0 <= i < j < v.len() ==> text::before((#[trigger] v[i])@, (#[trigger] v[j])@),
{
    let all = text::texts(names);
    let set = text::texts(v);
    lemma_commands(all, profiles, 0, c);
    text::law_texts_can_be_ordered(commands_of(all, profiles, 0));
    if exists|i: int| 0 <= i < v.len() && (#[trigger] v[i])@ == c {
        let i = choose|i: int| 0 <= i < v.len() && (#[trigger] v[i])@ == c;
        assert(set[i] == c);
        assert(set.contains(c));
        let n = choose|n: int|
            0 <= n < all.len() && #[trigger] asks_for(profiles, all[n], c);
        assert(all[n] == names[n]@);
    }
    if exists|n: int| 0 <= n < names.len() && asks_for(profiles, (#[trigger] names[n])@, c) {
        let n = choose|n: int| 0 <= n < names.len() && asks_for(profiles, (#[trigger] names[n])@, c);
        assert(asks_for(profiles, all[n], c));
        assert(set.contains(c));
        let i = choose|i: int| 0 <= i < set.len() && set[i] == c;
        assert(v[i]@ == c);
    }
    assert forall|i: int, j: int| 0 <= i < j < v.len() implies text::before(
        (#[trigger] v[i])@,
        (#[trigger] v[j])@,
    ) by {
        assert(text::before(set[i], set[j]));
    }
}

/// Where checks are run, every required profile has a command.
pub proof fn law_required_profiles_have_commands(
    names: Seq<String>,
    profiles: Seq<VerificationProfile>,
    n: int,
)
    requires
        checks_refusal(text::texts(names), profiles, 0) is None,
        0 <= n < names.len(),
    ensures
        exists|d: Seq<char>| #[trigger] asks_for(profiles, names[n]@, d),
{
    lemma_checked(text::texts(names), profiles, 0, n);
}

proof fn lemma_checked(names: Seq<Seq<char>>, profiles: Seq<VerificationProfile>, i: int, n: int)
    requires
        0 <= i <= n < names.len(),
        checks_refusal(names, profiles, i) is None,
    ensures
        exists|d: Seq<char>| #[trigger] asks_for(profiles, names[n], d),
    decreases n - i,
{
    if i < n {
        lemma_checked(names, profiles, i + 1, n);
    } else {
        lemma_profile_at(profiles, names[n], 0);
        let k = issue::profile_at(profiles, names[n], 0)->0;
        let d = profiles[k].command_refs@[0]@;
        assert(profiles[k].name@ == names[n]);
        assert(profiles[k].command_refs@[0]@ == d);
        assert(asks_for(profiles, names[n], d));
    }
}

/// The commands that required checks run, each once and in order.
pub fn required_commands(names: &Vec<String>, profiles: &Vec<VerificationProfile>) -> (r: Result<
    Vec<String>,
    Error,
>)
    ensures
        crate::error::settles(r, checks_refusal(text::texts(names@), profiles@, 0)),
        r matches Ok(v) ==> text::texts(v@) == text::in_order(
            commands_of(text::texts(names@), profiles@, 0),
        ),
{
    let ghost all = text::texts(names@);
    let ghost full = commands_of(all, profiles@, 0);
    let mut out: Vec<String> = Vec::new();
    assert(text::texts(out@) + full =~= full);
    let mut i: usize = 0;
    while i < names.len()
        invariant
            i <= names@.len(),
            all == text::texts(names@),
            full == commands_of(all, profiles@, 0),
            checks_refusal(all, profiles@, 0) == checks_refusal(all, profiles@, i as int),
            text::texts(out@) + commands_of(all, profiles@, i as int) == full,
        decreases names@.len() - i,
    {
        assert(all[i as int] == names@[i as int]@);
        match find_profile(profiles, names[i].as_str()) {
            None => return invalid(PROFILE_GONE),
            Some(k) => {
                if profiles[k].command_refs.len() == 0 {
                    let said: String = text::join3(
                        "verification ",
                        names[i].as_str(),
                        " has no deterministic command; configure project policy",
                    );
                    return invalid(said.as_str());
                }
                let ghost so_far = text::texts(out@);
                let ghost kept = out@;
                let mut more: Vec<String> = text::copied(&profiles[k].command_refs);
                let ghost added = more@;
                out.append(&mut more);
                proof {
                    let rest = commands_of(all, profiles@, i + 1);
                    assert(text::texts(out@) =~= so_far + text::texts(added));
                    assert((so_far + text::texts(added)) + rest =~= so_far + (text::texts(added)
                        + rest));
                }
            },
        }
        i += 1;
    }
    assert(text::texts(out@) + commands_of(all, profiles@, i as int) =~= text::texts(out@));
    let r: Vec<String> = text::set_of(&out);
    proof {
        text::lemma_in_order(text::texts(r@), text::texts(out@));
    }
    Ok(r)
}

/// What a check came to.
#[derive(Debug, Clone, Copy, PartialEq, Eq, Structural)]
pub struct CheckOutcome {
    pub interrupted: bool,
    pub exit: Option<i32>,
    pub failed: bool,
    /// Whether it left the workspace as it was.
    pub unchanged: bool,
}

/// Why a check does not count as passed, if it does not.
pub open spec fn check_refusal(name: Seq<char>, c: CheckOutcome) -> Option<Seq<char>> {
    if c.interrupted || c.exit != Some(0i32) || c.failed {
        Some(
            "deterministic check "@ + name + " failed; model prose cannot override it"@,
        )
    } else if !c.unchanged {
        Some("SOURCE_DRIFT: verification command changed workspace"@)
    } else {
        None
    }
}

/// Takes a check as passed only where it ran to its end, succeeded, and changed
/// nothing.
pub fn take_check(name: &str, c: &CheckOutcome) -> (r: Result<(), Error>)
    ensures
        crate::error::settles(r, check_refusal(name@, *c)),
{
    let clean: bool = match c.exit {
        Some(n) => n == 0,
        None => false,
    };
    if c.interrupted || !clean || c.failed {
        let said: String = text::join3(
            "deterministic check ",
            name,
            " failed; model prose cannot override it",
        );
        return invalid(said.as_str());
    }
    if !c.unchanged {
        return invalid("SOURCE_DRIFT: verification command changed workspace");
    }
    Ok(())
}

pub const CHECK_POLICY_DRIFT: &'static str =
    "SOURCE_DRIFT: check policy changed; replan/revalidation required";

pub const CHECK_LAUNCH_DRIFT: &'static str =
    "SOURCE_DRIFT: check policy changed before launch; replan/revalidation required";

/// Refuses checks under another project policy than the plan was prepared under.
pub fn same_check_policy(current: &Option<String>, planned: &str, launching: bool) -> (r: Result<
    (),
    Error,
>)
    ensures
        crate::error::settles(
            r,
            if validation::is_text(*current, planned@) {
                None
            } else if launching {
                Some(CHECK_LAUNCH_DRIFT@)
            } else {
                Some(CHECK_POLICY_DRIFT@)
            },
        ),
{
    if validation::holds_text(current, planned) {
        return Ok(());
    }
    if launching {
        invalid(CHECK_LAUNCH_DRIFT)
    } else {
        invalid(CHECK_POLICY_DRIFT)
    }
}

/// Refuses a check that would run outside the workspace. Paths are given part by
/// part.
pub fn check_directory(directory: &Vec<String>, root: &Vec<String>) -> (r: Result<(), Error>)
    ensures
        crate::error::settles(
            r,
            if crate::runtime::worktree::inside(text::texts(directory@), text::texts(root@)) {
                None
            } else {
                Some("verification cwd escapes workspace"@)
            },
        ),
{
    if crate::runtime::worktree::lies_inside(directory, root) {
        Ok(())
    } else {
        invalid("verification cwd escapes workspace")
    }
}

/// What evidence says of a check, given how its failure is shown.
pub open spec fn check_summary(name: Seq<char>, exit: Option<i32>, failure: Seq<char>) -> Seq<char> {
    "canonical check "@ + name + ": exit "@ + experiment::exit_text(exit) + ", failure "@ + failure
}

pub fn check_summary_of(name: &str, exit: &Option<i32>, failure: &str) -> (r: String)
    ensures
        r@ == check_summary(name@, *exit, failure@),
{
    let shown: String = experiment::show_exit(exit);
    let head: String = text::join3("canonical check ", name, ": exit ");
    let head: String = text::join3(head.as_str(), shown.as_str(), ", failure ");
    text::join2(head.as_str(), failure)
}

pub fn summarize_check(name: &str, exit: &Option<i32>, failure: &Option<String>) -> (r: String)
    ensures
        r@ == check_summary(
            name@,
            *exit,
            experiment::debugged(validation::message(*failure)),
        ),
{
    let failure: String = experiment::debug_text(failure);
    check_summary_of(name, exit, failure.as_str())
}

/// Whether a running check is to be stopped; asked for at most once.
pub fn stop_check(asked: bool, cancelled: bool, elapsed_ms: u128, timeout_ms: u64) -> (r: bool)
    ensures
        r == (!asked && (cancelled || elapsed_ms > timeout_ms)),
{
    !asked && (cancelled || elapsed_ms > timeout_ms as u128)
}

// ---------------------------------------------------------------------------
// Verification
// ---------------------------------------------------------------------------

/// What is known of a stored job: why its session refuses it, if it does, and
/// what it was issued, where that can be read.
#[derive(Debug, PartialEq, Eq)]
pub struct StoredJob {
    pub refusal: Option<String>,
    pub input: Result<IssuedInput, String>,
}

/// What a verifier was issued: whether the input belongs to the session that the
/// job belongs to, its subject and its source.
#[derive(Debug, PartialEq, Eq)]
pub struct IssuedInput {
    pub owned: bool,
    pub task_id: Option<String>,
    pub source: SourceStateRef,
}

/// Whether a job is a verifier that reached a decision. One that only asked for
/// context reached none.
pub open spec fn decided(job: RuntimeJob) -> bool {
    &&& job.role == AgentRole::Verifier
    &&& job.state == RuntimeJobState::Succeeded
    &&& job.context_request is None
}

pub const OUTPUT_MISSING: &'static str = "successful verifier output missing";

pub const FOREIGN_INPUT: &'static str = "stored verifier input/session ownership mismatch";

/// The first verifier with a decision on a subject and source, from the `i`-th
/// job on, or why the jobs cannot be trusted before one is found.
pub open spec fn recovered(
    jobs: Seq<RuntimeJob>,
    stored: Seq<StoredJob>,
    task: Option<Seq<char>>,
    source: SourceStateRef,
    i: int,
) -> Result<Option<int>, Seq<char>>
    decreases jobs.len() - i,
{
    if i < 0 || i >= jobs.len() {
        Ok(None)
    } else {
        match stored[i].refusal {
            Some(m) => Err(m@),
            None => if !decided(jobs[i]) {
                recovered(jobs, stored, task, source, i + 1)
            } else {
                match stored[i].input {
                    Err(m) => Err(m@),
                    Ok(input) => if !input.owned {
                        Err(FOREIGN_INPUT@)
                    } else if !(validation::message(input.task_id) == task
                        && model::same_source_ref(input.source, source)) {
                        recovered(jobs, stored, task, source, i + 1)
                    } else if jobs[i].output is None {
                        Err(OUTPUT_MISSING@)
                    } else {
                        Ok(Some(i))
                    },
                }
            },
        }
    }
}

/// Finds the verifier whose decision on a subject and source can be recovered.
pub fn completed_verifier(
    jobs: &Vec<RuntimeJob>,
    stored: &Vec<StoredJob>,
    task: Option<&str>,
    source: &SourceStateRef,
) -> (r: Result<Option<usize>, Error>)
    requires
        stored@.len() == jobs@.len(),
    ensures
        match recovered(jobs@, stored@, crate::runtime::attempt::borrowed(task), *source, 0) {
            Ok(Some(k)) => r matches Ok(Some(n)) && n as int == k,
            Ok(None) => r == Ok::<Option<usize>, Error>(None),
            Err(m) => crate::error::refused(r, m),
        },
{
    let ghost subject = crate::runtime::attempt::borrowed(task);
    let mut i: usize = 0;
    while i < jobs.len()
        invariant
            i <= jobs@.len(),
            stored@.len() == jobs@.len(),
            subject == crate::runtime::attempt::borrowed(task),
            recovered(jobs@, stored@, subject, *source, 0) == recovered(
                jobs@,
                stored@,
                subject,
                *source,
                i as int,
            ),
        decreases jobs@.len() - i,
    {
        let job: &RuntimeJob = &jobs[i];
        if let Some(m) = &stored[i].refusal {
            return invalid(m.as_str());
        }
        if job.role == AgentRole::Verifier && job.state == RuntimeJobState::Succeeded
            && job.context_request.is_none() {
            match &stored[i].input {
                Err(m) => return invalid(m.as_str()),
                Ok(input) => {
                    if !input.owned {
                        return invalid(FOREIGN_INPUT);
                    }
                    let same_task: bool = match (&input.task_id, task) {
                        (Some(a), Some(b)) => text::same(a.as_str(), b),
                        (None, None) => true,
                        _ => false,
                    };
                    if same_task && input.source.same(source) {
                        if job.output.is_none() {
                            return invalid(OUTPUT_MISSING);
                        }
                        return Ok(Some(i));
                    }
                },
            }
        }
        i += 1;
    }
    Ok(None)
}

/// Finds the task of a pending result in its plan, and the state that it is in.
pub fn pending_task(pending: &PendingTask, tasks: &Vec<TaskPacket>, states: &Vec<TaskStatus>) -> (r:
    Result<(usize, TaskState), Error>)
    ensures
        match (
            crate::protocol::task_at(tasks@, pending.task_id@, 0),
            store::state_of(states@, pending.task_id@, 0),
        ) {
            (None, _) => crate::error::refused(r, "pending task not in plan"@),
            (Some(_), None) => crate::error::refused(r, "pending task missing"@),
            (Some(k), Some(state)) => r matches Ok(found) && found.0 as int == k && found.1
                == state,
        },
{
    let k: usize = match find_task(tasks, pending.task_id.as_str()) {
        Some(k) => k,
        None => return invalid("pending task not in plan"),
    };
    match task_state(states, pending.task_id.as_str()) {
        Some(state) => Ok((k, state)),
        None => invalid("pending task missing"),
    }
}

pub const NOT_INDEXED: &'static str = "accepted source could not be indexed";

pub const ACCEPTED_NOT_INDEXED: &'static str =
    "accepted source could not be indexed; planner review required";

/// Refuses to go on where files of accepted source could not be indexed.
pub fn check_indexed(failed: u64, just_accepted: bool) -> (r: Result<(), Error>)
    ensures
        crate::error::settles(
            r,
            if failed == 0 {
                None
            } else if just_accepted {
                Some(ACCEPTED_NOT_INDEXED@)
            } else {
                Some(NOT_INDEXED@)
            },
        ),
{
    if failed == 0 {
        Ok(())
    } else if just_accepted {
        invalid(ACCEPTED_NOT_INDEXED)
    } else {
        invalid(NOT_INDEXED)
    }
}

/// What is done about a pending result.
#[derive(Debug, Clone, Copy, PartialEq, Eq, Structural)]
pub enum Verifying {
    /// The task is verified already; the result only has to be recorded.
    Record,
    /// A decision is there.
    Decide,
    /// A verifier has to decide; `checks` says whether the deterministic checks
    /// have to run first.
    Verify { checks: bool },
}

/// Decides what is done about a pending result whose task is in a state.
pub fn verifying(pending: &PendingTask, state: TaskState) -> (r: Result<Verifying, Error>)
    ensures
        crate::error::settles(
            r,
            if state == TaskState::Verified && pending.proof is None {
                Some("verified task lacks runtime checkpoint"@)
            } else {
                None
            },
        ),
        r matches Ok(v) ==> v == if state == TaskState::Verified {
            Verifying::Record
        } else if pending.proof is Some {
            Verifying::Decide
        } else {
            Verifying::Verify { checks: pending.evidence@.len() == 1 }
        },
{
    if state == TaskState::Verified {
        if pending.proof.is_none() {
            return invalid("verified task lacks runtime checkpoint");
        }
        return Ok(Verifying::Record);
    }
    if pending.proof.is_some() {
        return Ok(Verifying::Decide);
    }
    Ok(Verifying::Verify { checks: pending.evidence.len() == 1 })
}

/// Takes over a recovered decision only where it was issued the same evidence.
pub fn recover(
    pending: &mut PendingTask,
    job: String,
    proof: VerificationPacket,
    issued_evidence: &Vec<String>,
) -> (r: Result<(), Error>)
    ensures
        crate::error::settles(
            r,
            if text::texts(issued_evidence@) == text::texts(old(pending).evidence@) {
                None
            } else {
                Some("recovery evidence mismatch"@)
            },
        ),
        r is Ok ==> *final(pending) == (PendingTask {
            verifier: Some(job),
            proof: Some(proof),
            ..*old(pending)
        }),
        r is Err ==> *final(pending) == *old(pending),
{
    if !text::same_texts(issued_evidence, &pending.evidence) {
        return invalid("recovery evidence mismatch");
    }
    pending.verifier = Some(job);
    pending.proof = Some(proof);
    Ok(())
}

/// The state that a decision puts its task into.
pub open spec fn decided_state(decision: VerificationDecision) -> TaskState {
    match decision {
        VerificationDecision::Pass => TaskState::Verified,
        VerificationDecision::Reject => TaskState::Rejected,
        VerificationDecision::Blocked => TaskState::Blocked,
    }
}

pub fn state_after(decision: VerificationDecision) -> (r: TaskState)
    ensures
        r == decided_state(decision),
{
    match decision {
        VerificationDecision::Pass => TaskState::Verified,
        VerificationDecision::Reject => TaskState::Rejected,
        VerificationDecision::Blocked => TaskState::Blocked,
    }
}

pub const NOT_VERIFIED: &'static str =
    "verifier rejected/blocked task; dependents remain locked; explicit correction plan required";

/// Whether accepted tasks are another list with one task put in its place.
pub open spec fn inserted(before: Seq<AcceptedTask>, after: Seq<AcceptedTask>, task: AcceptedTask) -> bool {
    forall|id: Seq<char>|
        (match record::accepted_at(after, id, 0) {
            Some(k) => Some(after[k]),
            None => None,
        }) == if id == task.task_id@ {
            Some(task)
        } else {
            #[trigger] accepted_of(before, id)
        }
}

/// What was accepted of a task.
pub open spec fn accepted_of(tasks: Seq<AcceptedTask>, id: Seq<char>) -> Option<AcceptedTask> {
    match record::accepted_at(tasks, id, 0) {
        Some(k) => Some(tasks[k]),
        None => None,
    }
}

proof fn lemma_accepted_insert(before: Seq<AcceptedTask>, p: int, task: AcceptedTask, id: Seq<char>, i: int)
    requires
        0 <= i <= p <= before.len(),
        forall|j: int| 0 <= j < before.len() ==> (#[trigger] before[j]).task_id@ != task.task_id@,
    ensures
        ({
            let after = before.insert(p, task);
            (match record::accepted_at(after, id, i) {
                Some(k) => Some(after[k]),
                None => None,
            }) == if id == task.task_id@ {
                Some(task)
            } else {
                match record::accepted_at(before, id, i) {
                    Some(k) => Some(before[k]),
                    None => None,
                }
            }
        }),
    decreases p - i,
{
    let after = before.insert(p, task);
    if i < p {
        assert(after[i] == before[i]);
        lemma_accepted_insert(before, p, task, id, i + 1);
    } else {
        assert(after[p] == task);
        if id != task.task_id@ {
            lemma_accepted_shift(before, p, task, id, p);
            reveal_with_fuel(record::accepted_at, 2);
        }
    }
}

proof fn lemma_accepted_shift(before: Seq<AcceptedTask>, p: int, task: AcceptedTask, id: Seq<char>, i: int)
    requires
        0 <= p <= i <= before.len(),
    ensures
        record::accepted_at(before.insert(p, task), id, i + 1) == match record::accepted_at(
            before,
            id,
            i,
        ) {
            Some(k) => Some(k + 1),
            None => None,
        },
        record::accepted_at(before, id, i) matches Some(k) ==> i <= k < before.len(),
    decreases before.len() - i,
{
    if i < before.len() {
        assert(before.insert(p, task)[i + 1] == before[i]);
        if before[i].task_id@ != id {
            lemma_accepted_shift(before, p, task, id, i + 1);
        }
    }
}

proof fn lemma_accepted_update(before: Seq<AcceptedTask>, k: int, task: AcceptedTask, id: Seq<char>, i: int)
    requires
        0 <= i <= k < before.len(),
        before[k].task_id@ == task.task_id@,
        record::accepted_at(before, task.task_id@, i) == Some(k),
    ensures
        ({
            let after = before.update(k, task);
            (match record::accepted_at(after, id, i) {
                Some(k) => Some(after[k]),
                None => None,
            }) == if id == task.task_id@ {
                Some(task)
            } else {
                match record::accepted_at(before, id, i) {
                    Some(k) => Some(before[k]),
                    None => None,
                }
            }
        }),
    decreases k - i,
{
    let after = before.update(k, task);
    if i < k {
        if before[i].task_id@ != id {
            lemma_accepted_update(before, k, task, id, i + 1);
        }
    } else {
        if id != task.task_id@ {
            lemma_accepted_rest(before, k, task, id, k + 1);
        }
    }
}

proof fn lemma_accepted_rest(before: Seq<AcceptedTask>, k: int, task: AcceptedTask, id: Seq<char>, i: int)
    requires
        0 <= k < i <= before.len(),
        k < before.len(),
    ensures
        record::accepted_at(before.update(k, task), id, i) == record::accepted_at(before, id, i),
        record::accepted_at(before, id, i) matches Some(m) ==> i <= m < before.len(),
    decreases before.len() - i,
{
    if i < before.len() && before[i].task_id@ != id {
        lemma_accepted_rest(before, k, task, id, i + 1);
    }
}

proof fn lemma_accepted_absent(tasks: Seq<AcceptedTask>, id: Seq<char>, i: int)
    requires
        0 <= i,
        record::accepted_at(tasks, id, i) is None,
    ensures
        forall|j: int| i <= j < tasks.len() ==> (#[trigger] tasks[j]).task_id@ != id,
    decreases tasks.len() - i,
{
    if i < tasks.len() {
        lemma_accepted_absent(tasks, id, i + 1);
    }
}

proof fn lemma_accepted_found(tasks: Seq<AcceptedTask>, id: Seq<char>, i: int)
    requires
        0 <= i,
    ensures
        record::accepted_at(tasks, id, i) matches Some(k) ==> i <= k < tasks.len()
            && tasks[k].task_id@ == id,
    decreases tasks.len() - i,
{
    if i < tasks.len() && tasks[i].task_id@ != id {
        lemma_accepted_found(tasks, id, i + 1);
    }
}

fn insert_accepted(tasks: &mut Vec<AcceptedTask>, task: AcceptedTask)
    ensures
        inserted(old(tasks)@, final(tasks)@, task),
        text::ascending(record::accepted_ids(old(tasks)@)) ==> text::ascending(
            record::accepted_ids(final(tasks)@),
        ),
{
    let ghost before = tasks@;
    let ghost ids = record::accepted_ids(before);
    match record::find_accepted(tasks, task.task_id.as_str()) {
        Some(k) => {
            proof {
                lemma_accepted_found(before, task.task_id@, 0);
            }
            tasks.set(k, task);
            proof {
                assert(record::accepted_ids(tasks@) =~= ids);
                assert forall|id: Seq<char>|
                    (match record::accepted_at(tasks@, id, 0) {
                        Some(k) => Some(tasks@[k]),
                        None => None,
                    }) == if id == task.task_id@ {
                        Some(task)
                    } else {
                        #[trigger] accepted_of(before, id)
                    } by {
                    lemma_accepted_update(before, k as int, task, id, 0);
                }
            }
        },
        None => {
            proof {
                lemma_accepted_absent(before, task.task_id@, 0);
            }
            let mut p: usize = 0;
            while p < tasks.len() && text::less(tasks[p].task_id.as_str(), task.task_id.as_str())
                invariant
                    p <= tasks@.len(),
                    tasks@ == before,
                    ids == record::accepted_ids(before),
                    forall|k: int| 0 <= k < p ==> text::before(#[trigger] ids[k], task.task_id@),
                decreases tasks@.len() - p,
            {
                assert(ids[p as int] == tasks@[p as int].task_id@);
                p += 1;
            }
            tasks.insert(p, task);
            proof {
                if text::ascending(ids) {
                    let x = task.task_id@;
                    if ids.contains(x) {
                        let k = choose|k: int| 0 <= k < ids.len() && ids[k] == x;
                        assert(before[k].task_id@ == x);
                    }
                    if p < ids.len() {
                        assert(ids[p as int] == before[p as int].task_id@);
                        text::lemma_before_total(ids[p as int], x);
                    }
                    text::lemma_place(ids, x, p as int);
                    assert(record::accepted_ids(tasks@) =~= ids.insert(p as int, x));
                }
                assert(tasks@ == before.insert(p as int, task));
                assert forall|id: Seq<char>|
                    (match record::accepted_at(tasks@, id, 0) {
                        Some(k) => Some(tasks@[k]),
                        None => None,
                    }) == if id == task.task_id@ {
                        Some(task)
                    } else {
                        #[trigger] accepted_of(before, id)
                    } by {
                    lemma_accepted_insert(before, p as int, task, id, 0);
                }
            }
        },
    }
}

/// Why a pending result is not accepted, if it is not.
pub open spec fn acceptance_refusal(pending: Option<PendingTask>) -> Option<Seq<char>> {
    match pending {
        None => Some("pending task missing"@),
        Some(p) => match p.proof {
            None => Some(NOT_VERIFIED@),
            Some(proof) => if proof.decision != VerificationDecision::Pass {
                Some(NOT_VERIFIED@)
            } else if p.verifier is None {
                Some("missing fresh verifier identity"@)
            } else {
                None
            },
        },
    }
}

/// Accepts a pending result that passed its verification: it becomes the newest
/// verified source, and nothing stays pending or refused.
pub fn accept(run: &mut RunRecord) -> (r: Result<(), Error>)
    ensures
        crate::error::settles(r, acceptance_refusal(old(run).pending)),
        r is Ok ==> record::driven(*old(run), *final(run)),
        r is Ok ==> {
            let p = old(run).pending->0;
            &&& *final(run) == (RunRecord {
                expected: p.after,
                verified: Some(p.after),
                accepted: final(run).accepted,
                pending: None,
                refused: None,
                ..*old(run)
            })
            &&& inserted(
                old(run).accepted@,
                final(run).accepted@,
                (AcceptedTask {
                    task_id: p.task_id,
                    executor: p.executor,
                    verifier: p.verifier->0,
                    diff: p.diff,
                    evidence: p.evidence,
                }),
            )
            &&& (text::ascending(record::accepted_ids(old(run).accepted@)) ==> text::ascending(
                record::accepted_ids(final(run).accepted@),
            ))
        },
        r is Err ==> *final(run) == *old(run),
{
    match &run.pending {
        None => return invalid("pending task missing"),
        Some(p) => {
            let passed: bool = match &p.proof {
                Some(proof) => proof.decision == VerificationDecision::Pass,
                None => false,
            };
            if !passed {
                return invalid(NOT_VERIFIED);
            }
            if p.verifier.is_none() {
                return invalid("missing fresh verifier identity");
            }
        },
    }
    let pending: PendingTask = match run.pending.take() {
        Some(p) => p,
        None => return invalid("pending task missing"),
    };
    let verifier: String = match pending.verifier {
        Some(v) => v,
        None => return invalid("missing fresh verifier identity"),
    };
    run.expected = pending.after.clone();
    run.verified = Some(pending.after);
    insert_accepted(
        &mut run.accepted,
        AcceptedTask {
            task_id: pending.task_id,
            executor: pending.executor,
            verifier,
            diff: pending.diff,
            evidence: pending.evidence,
        },
    );
    run.refused = None;
    Ok(())
}

/// Work is accepted only on a verifier's PASS.
pub proof fn law_only_passed_work_is_accepted(pending: PendingTask)
    requires
        acceptance_refusal(Some(pending)) is None,
    ensures
        pending.proof is Some,
        pending.proof->0.decision == VerificationDecision::Pass,
        decided_state(pending.proof->0.decision) == TaskState::Verified,
        pending.verifier is Some,
{
}

// ---------------------------------------------------------------------------
// Integration
// ---------------------------------------------------------------------------

/// Checks that every task of a plan has an acceptance record before the whole is
/// integrated.
pub fn check_integrable(run: &RunRecord, packet: &PlanPacket) -> (r: Result<(), Error>)
    ensures
        crate::error::settles(
            r,
            if run.accepted@.len() == packet.tasks@.len() {
                None
            } else {
                Some("runtime lacks authentic packet acceptance records"@)
            },
        ),
{
    if run.accepted.len() == packet.tasks.len() {
        Ok(())
    } else {
        invalid("runtime lacks authentic packet acceptance records")
    }
}

/// What an integration verifier decides on: exactly the executors that the run
/// accepted.
pub fn integration_target(run: &RunRecord) -> (r: VerificationTarget)
    ensures
        r matches VerificationTarget::Integration { plan_id, executor_job_ids } && plan_id
            == run.plan_id && text::texts(executor_job_ids@) == record::executors(run.accepted@),
{
    VerificationTarget::Integration {
        plan_id: run.plan_id.clone(),
        executor_job_ids: record::list_executors(&run.accepted),
    }
}

/// The scopes of the tasks from the `i`-th on.
pub open spec fn task_scopes(tasks: Seq<TaskPacket>, i: int) -> Seq<ScopePath>
    decreases tasks.len() - i,
{
    if i < 0 || i >= tasks.len() {
        Seq::empty()
    } else {
        tasks[i].read_scope@ + tasks[i].write_scope@ + task_scopes(tasks, i + 1)
    }
}

/// The paths that an integration verifier may ask for context from.
pub fn integration_envelope(packet: &PlanPacket) -> (r: Vec<ScopePath>)
    ensures
        r@ == task_scopes(packet.tasks@, 0),
{
    let mut out: Vec<ScopePath> = Vec::new();
    assert(out@ + task_scopes(packet.tasks@, 0) =~= task_scopes(packet.tasks@, 0));
    let mut i: usize = 0;
    while i < packet.tasks.len()
        invariant
            i <= packet.tasks@.len(),
            out@ + task_scopes(packet.tasks@, i as int) == task_scopes(packet.tasks@, 0),
        decreases packet.tasks@.len() - i,
    {
        let ghost so_far = out@;
        let mut reads: Vec<ScopePath> = scope::copied(&packet.tasks[i].read_scope);
        let mut writes: Vec<ScopePath> = scope::copied(&packet.tasks[i].write_scope);
        out.append(&mut reads);
        out.append(&mut writes);
        proof {
            let t = packet.tasks@[i as int];
            let rest = task_scopes(packet.tasks@, i + 1);
            assert(out@ + rest =~= so_far + (t.read_scope@ + t.write_scope@ + rest));
        }
        i += 1;
    }
    assert(out@ + task_scopes(packet.tasks@, i as int) =~= out@);
    out
}

/// The invariants of the tasks from the `i`-th on.
pub open spec fn task_invariants(tasks: Seq<TaskPacket>, i: int) -> Seq<Seq<char>>
    decreases tasks.len() - i,
{
    if i < 0 || i >= tasks.len() {
        Seq::empty()
    } else {
        text::texts(tasks[i].invariant_refs@) + task_invariants(tasks, i + 1)
    }
}

/// The invariants that a PASS of the whole plan has to name: those of every
/// task, each once and in order.
pub fn integration_invariants(packet: &PlanPacket) -> (r: Vec<String>)
    ensures
        text::texts(r@) == text::in_order(task_invariants(packet.tasks@, 0)),
{
    let mut out: Vec<String> = Vec::new();
    assert(text::texts(out@) + task_invariants(packet.tasks@, 0) =~= task_invariants(
        packet.tasks@,
        0,
    ));
    let mut i: usize = 0;
    while i < packet.tasks.len()
        invariant
            i <= packet.tasks@.len(),
            text::texts(out@) + task_invariants(packet.tasks@, i as int) == task_invariants(
                packet.tasks@,
                0,
            ),
        decreases packet.tasks@.len() - i,
    {
        let ghost so_far = text::texts(out@);
        let mut more: Vec<String> = text::copied(&packet.tasks[i].invariant_refs);
        let ghost added = more@;
        out.append(&mut more);
        proof {
            let rest = task_invariants(packet.tasks@, i + 1);
            assert(text::texts(out@) =~= so_far + text::texts(added));
            assert((so_far + text::texts(added)) + rest =~= so_far + (text::texts(added) + rest));
        }
        i += 1;
    }
    assert(text::texts(out@) + task_invariants(packet.tasks@, i as int) =~= text::texts(out@));
    let r: Vec<String> = text::set_of(&out);
    proof {
        text::lemma_in_order(text::texts(r@), text::texts(out@));
    }
    r
}

// ---------------------------------------------------------------------------
// Planner corrections
// ---------------------------------------------------------------------------

/// How much of a refusal is kept.
pub const REFUSAL_CHARS: usize = 1024;

/// What marks a refusal that cites a rule of the planner's contract.
pub const PLAN_RULE_MARK: &'static str = "[PLAN-";

/// What the planner is told together with the refusal and the refused decision.
pub const CORRECTION_INSTRUCTION: &'static str =
    "agentctl refused previous_decision for the reason in `refusal`, which names the violated planner-contract rule. Return a complete corrected PlanDecision that satisfies every planner-contract rule; change only what the refusal requires.";

/// What is done about a plan that was refused.
#[derive(Debug, PartialEq, Eq)]
pub struct Correction {
    /// The class that the planner's job is recorded with.
    pub class: Option<OutcomeClass>,
    pub kept: String,
    /// The number of the correction that is asked for, if one is.
    pub attempt: Option<u32>,
    /// How many corrections there can be.
    pub max_attempts: u32,
    /// What the planner is told of a correction.
    pub instruction: &'static str,
}

/// Decides about a plan that was refused. Only a refusal that cites a rule of
/// the planner's contract is the planner's own mistake, and it may be corrected
/// only so often.
pub fn correction(refusal: &str, attempts: u32) -> (r: Correction)
    ensures
        r.kept@ == text::clipped(refusal@, REFUSAL_CHARS as int),
        r.class == if text::occurs(refusal@, PLAN_RULE_MARK@) {
            Some(OutcomeClass::ValidationFailure)
        } else {
            None
        },
        r.attempt == if text::occurs(refusal@, PLAN_RULE_MARK@) && attempts
            < MAX_PLAN_CORRECTIONS {
            Some((attempts + 1) as u32)
        } else {
            None
        },
        r.max_attempts == MAX_PLAN_CORRECTIONS,
        r.instruction == CORRECTION_INSTRUCTION,
{
    let kept: String = text::clip(refusal, REFUSAL_CHARS);
    let own: bool = text::contains(refusal, PLAN_RULE_MARK);
    Correction {
        class: if own {
            Some(OutcomeClass::ValidationFailure)
        } else {
            None
        },
        kept,
        attempt: if own && attempts < MAX_PLAN_CORRECTIONS {
            Some(attempts + 1)
        } else {
            None
        },
        max_attempts: MAX_PLAN_CORRECTIONS,
        instruction: CORRECTION_INSTRUCTION,
    }
}

} // verus!
