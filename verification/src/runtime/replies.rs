//! Which routes are tried, which replies are taken, and which configurations are.
use crate::manifest::{SuppliedKind, SuppliedSource};
use crate::protocol;
use crate::protocol::{AgentRole, VerificationPacket, VerificationTarget};
use crate::runtime::attempt;
use crate::runtime::attempt::{Exchange, ReplyFacts, ResultIdentity};
use crate::runtime::config;
use crate::runtime::config::{
    ConcurrencyConfig, ConfigFacts, ContextConfig, NamedProvider, NamedRole, RuntimeConfig,
};
use crate::runtime::credentials;
use crate::runtime::credentials::AuthMode;
use crate::runtime::dispatch;
use crate::runtime::dispatch::{Dispatch, FailureView, Next};
use crate::runtime::record::{OutcomeClass, RuntimeJobState};
use crate::text;
use vstd::prelude::*;

verus! {

// ---------------------------------------------------------------------------
// Routes
// ---------------------------------------------------------------------------
/// The routes are the primary one and the first of its fallbacks, in order, as many as
/// are permitted.
pub proof fn law_routes_start_with_the_primary(
    primary: Seq<char>,
    fallbacks: Seq<Seq<char>>,
    max: nat,
    n: int,
)
    ensures
        ({
            let routes = dispatch::permitted(primary, fallbacks, max as int);
            &&& routes[0] == primary
            &&& routes.len() <= 1 + max && routes.len() <= 1 + fallbacks.len()
            &&& routes.len() == 1 + max || routes.len() == 1 + fallbacks.len()
            &&& 0 < n < routes.len() ==> routes[n] == fallbacks[n - 1]
        }),
{
}

/// The same route is tried again only after a failure of the provider that was safe to
/// repeat, and at most twice; the next route only where this one was unavailable and
/// there is one; and an invalid answer ends the search.
pub proof fn law_failures_are_answered_in_kind(
    d: Dispatch,
    failure: FailureView,
    safe: bool,
    next: Next,
)
    requires
        dispatch::follows(d, failure, safe, next),
        d.well_formed(),
    ensures
        next is Retry <==> failure is Provider && safe && d.retries < 2,
        next is Retry ==> next->retry == d.retries + 1,
        next is Fallback <==> failure is Unavailable && d.attempt + 1 < d.routes@.len(),
        next is Fallback ==> next->attempt == d.attempt + 1,
        next is Exhausted <==> failure is Unavailable && d.attempt + 1 >= d.routes@.len(),
        next is Fail <==> failure is Invalid || (failure is Provider && !(safe && d.retries < 2)),
        !(next is Finish),
{
    assert(d.routes.len() <= usize::MAX);
}

/// A retryable failure may be repeated by any role, a broken rule by workers alone, and
/// nothing else by any.
pub proof fn law_only_some_failures_may_be_repeated(role: AgentRole, class: OutcomeClass)
    ensures
        dispatch::eligible(role, class) <==> class == OutcomeClass::RetryableProviderFailure || (
        class == OutcomeClass::ValidationFailure && role != AgentRole::Planner),
{
}

// ---------------------------------------------------------------------------
// Replies
// ---------------------------------------------------------------------------
/// A reply is read exactly where the process was not interrupted, could be read, exited
/// with zero and left one document.
pub proof fn law_replies_are_read_where_the_process_succeeded(x: Exchange, document: Seq<char>)
    ensures
        attempt::exchange_failure(x, document) is None <==> x.interruption is None && x.failure is None
            && x.exit == Some(0i32) && x.uncollected is None,
        attempt::exchange_failure(x, document) matches Some(f) ==> (f is Invalid
            <==> x.interruption == Some(attempt::Interruption::Cancelled)),
        attempt::exchange_failure(x, document) matches Some(f) ==> (f is Provider && f->class
            == OutcomeClass::NonretryableProviderFailure <==> x.interruption is None
            && x.failure is None && x.fault is Some && !x.fault->0.retryable),
{
}

/// A result is taken exactly where it is well formed, nothing stands against it, it names
/// the job and the task of the job, and claims no evidence.
pub proof fn law_results_are_taken_from_their_own_job(
    facts: ReplyFacts,
    document: Seq<char>,
    result: ResultIdentity,
    task: Option<Seq<char>>,
    job: Seq<char>,
)
    ensures
        attempt::result_failure(facts, document, result, task, job) is None <==> {
            &&& facts.malformed is None
            &&& facts.refusal is None
            &&& task is Some
            &&& result.task_id@ == task->0
            &&& result.executor_job_id@ == job
            &&& result.evidence@.len() == 0
        },
{
}

/// A verdict is taken exactly where it is well formed, nothing stands against it, and it
/// names this job, its target and its evidence just as they were issued.
pub proof fn law_verdicts_are_taken_verbatim(
    facts: ReplyFacts,
    document: Seq<char>,
    proof: VerificationPacket,
    job: Seq<char>,
    target: VerificationTarget,
    evidence: Seq<Seq<char>>,
)
    ensures
        attempt::proof_failure(facts, document, proof, job, target, evidence) is None <==> {
            &&& facts.malformed is None
            &&& facts.refusal is None
            &&& proof.verifier_job_id@ == job
            &&& protocol::same_target(proof.target, target)
            &&& proof.evidence@.len() == evidence.len()
            &&& forall|n: int|
                0 <= n < evidence.len() ==> (#[trigger] proof.evidence@[n])@ == evidence[n]
        },
{
    let own = text::texts(proof.evidence@);
    if own == evidence {
        assert forall|n: int| 0 <= n < evidence.len() implies (#[trigger] proof.evidence@[n])@
            == evidence[n] by {
            assert(own[n] == evidence[n]);
        }
    } else if proof.evidence@.len() == evidence.len() && forall|n: int|
        0 <= n < evidence.len() ==> (#[trigger] proof.evidence@[n])@ == evidence[n] {
        assert(own =~= evidence);
    }
}

/// The files that a worker was given whole are those that were supplied as files and not
/// cut.
pub proof fn law_whole_files_are_uncut_files(
    paths: Seq<SuppliedSource>,
    i: int,
    n: int,
    path: Seq<char>,
)
    requires
        0 <= i,
    ensures
        ({
            let all = attempt::whole_files(paths, i);
            &&& i <= n < paths.len() && paths[n].kind == SuppliedKind::File && !paths[n].truncated
                ==> all.contains(paths[n].path@)
            &&& all.contains(path) ==> exists|m: int|
                i <= m < paths.len() && (#[trigger] paths[m]).path@ == path && paths[m].kind
                    == SuppliedKind::File && !paths[m].truncated
        }),
    decreases paths.len() - i,
{
    if i < paths.len() {
        law_whole_files_are_uncut_files(paths, i + 1, n, path);
        let all = attempt::whole_files(paths, i);
        let rest = attempt::whole_files(paths, i + 1);
        if paths[i].kind == SuppliedKind::File && !paths[i].truncated {
            text::lemma_sum_contains(seq![paths[i].path@], rest, path);
            assert(all[0] == paths[i].path@);
            if i < n < paths.len() {
                text::lemma_sum_contains(seq![paths[i].path@], rest, paths[n].path@);
            }
            if all.contains(path) && !rest.contains(path) {
                assert(seq![paths[i].path@].contains(path));
                assert(paths[i].path@ == path);
            }
        }
    }
}

/// A job is recorded as cancelled where it was, and as what became of it where it was not.
pub proof fn law_jobs_end_as_they_did(cancelled: bool, succeeded: bool)
    ensures
        attempt::outcome(cancelled, succeeded).0 == RuntimeJobState::Cancelled <==> cancelled,
        attempt::outcome(cancelled, succeeded).0 == RuntimeJobState::Succeeded <==> !cancelled
            && succeeded,
        attempt::outcome(cancelled, succeeded).0 == RuntimeJobState::Failed <==> !cancelled
            && !succeeded,
{
}

// ---------------------------------------------------------------------------
// Configurations
// ---------------------------------------------------------------------------
/// At least one agent and at most 256 may work at once; a relay has at most four rounds,
/// two for verifiers, and two escalations; and its budgets lie between 1 KiB and 32 KiB a
/// round and 96 KiB a task, a round having no more than the task.
pub proof fn law_configured_limits_are_bounded(a: ConcurrencyConfig, c: ContextConfig)
    ensures
        config::concurrency_refusal(a) is None <==> 1 <= a.max_agents <= 256,
        config::context_refusal(c) is None <==> {
            &&& c.max_rounds <= 4
            &&& c.verifier_max_rounds <= 2
            &&& c.max_escalations <= 2
            &&& 1024 <= c.max_round_bytes <= 32768
            &&& 1024 <= c.max_task_bytes <= 98304
            &&& c.max_round_bytes <= c.max_task_bytes
        },
{
}

/// Whether an opaque setting is left out, or short and on one line.
pub open spec fn fits_a_line(value: Option<String>) -> bool {
    value is Some ==> {
        &&& 0 < value->0@.len()
        &&& text::size(value->0@) <= 128
        &&& !value->0@.contains('\0')
        &&& !value->0@.contains('\n')
        &&& !value->0@.contains('\r')
    }
}

proof fn lemma_roles(
    roles: Seq<NamedRole>,
    providers: Seq<NamedProvider>,
    known: Seq<bool>,
    i: int,
    n: int,
)
    requires
        0 <= i <= n < roles.len(),
        config::roles_refusal(roles, providers, known, i) is None,
    ensures
        known[n],
        exists|p: int|
            0 <= p < providers.len() && (#[trigger] providers[p]).name@ == roles[n].config.provider@,
        fits_a_line(roles[n].config.model),
        fits_a_line(roles[n].config.effort),
    decreases n - i,
{
    if i < n {
        lemma_roles(roles, providers, known, i + 1, n);
    }
}

proof fn lemma_providers(providers: Seq<NamedProvider>, facts: ConfigFacts, i: int, n: int)
    requires
        0 <= i <= n < providers.len(),
        config::providers_refusal(providers, facts, i) is None,
    ensures
        ({
            let p = providers[n].config;
            &&& p.adapter@ == "codex"@ || p.adapter@ == facts.keychain_adapter@
            &&& credentials::authentication_refusal(p.authentication) is None
            &&& n < facts.provider_names@.len() ==> facts.provider_names@[n] is None
            &&& n < facts.executables@.len() ==> facts.executables@[n] is None
        }),
    decreases n - i,
{
    if i < n {
        lemma_providers(providers, facts, i + 1, n);
    }
}

/// A configuration is valid only where nothing stands against its profiles and its
/// security, its limits are within bounds, every provider is of a known family and can be
/// authenticated and launched, and every role is known and has a provider.
pub proof fn law_valid_configurations_can_be_run(
    c: RuntimeConfig,
    facts: ConfigFacts,
    p: int,
    r: int,
)
    requires
        config::config_refusal(c, facts) is None,
    ensures
        facts.profiles is None,
        facts.security is None,
        1 <= c.concurrency.max_agents <= 256,
        config::context_refusal(c.context) is None,
        1 <= c.timeout_ms <= 3_600_000,
        c.max_correction_rounds <= 2,
        0 <= p < c.providers@.len() ==> {
            let config = c.providers@[p].config;
            &&& config.adapter@ == "codex"@ || config.adapter@ == facts.keychain_adapter@
            &&& config.authentication.mode == AuthMode::ApiKey
                ==> config.authentication.api_key_env is Some
            &&& config.authentication.api_key_env is Some ==> credentials::is_variable_name(
                config.authentication.api_key_env->0@,
            )
            &&& p < facts.provider_names@.len() ==> facts.provider_names@[p] is None
            &&& p < facts.executables@.len() ==> facts.executables@[p] is None
        },
        0 <= r < c.roles@.len() ==> {
            let config = c.roles@[r].config;
            &&& facts.known_roles@[r]
            &&& exists|n: int|
                0 <= n < c.providers@.len() && (#[trigger] c.providers@[n]).name@
                    == config.provider@
            &&& fits_a_line(config.model)
            &&& fits_a_line(config.effort)
        },
{
    if 0 <= p < c.providers@.len() {
        lemma_providers(c.providers@, facts, 0, p);
    }
    if 0 <= r < c.roles@.len() {
        lemma_roles(c.roles@, c.providers@, facts.known_roles@, 0, r);
    }
}

/// The configuration of a role is found by its name, and the first of that name is.
pub proof fn law_roles_are_found_by_name(roles: Seq<NamedRole>, name: Seq<char>, i: int)
    requires
        0 <= i,
    ensures
        match config::role_at(roles, name, i) {
            Some(k) => i <= k < roles.len() && roles[k].name@ == name && forall|j: int|
                i <= j < k ==> (#[trigger] roles[j]).name@ != name,
            None => forall|j: int| i <= j < roles.len() ==> (#[trigger] roles[j]).name@ != name,
        },
    decreases roles.len() - i,
{
    if i < roles.len() {
        law_roles_are_found_by_name(roles, name, i + 1);
    }
}

} // verus!
