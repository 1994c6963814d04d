//! What it takes for two records to count as the same.
use crate::graph;
use crate::graph::{GraphGeneration, Provenance};
use crate::planning::model;
use crate::planning::model::{
    PlanningLimits, PlanningSource, RequestDraft, SourceStateRef, VerificationContract,
};
use crate::planning::scope;
use crate::protocol;
use crate::protocol::{CommandSpec, TaskPacket, VerificationPacket, VerificationTarget};
use crate::repository;
use crate::text;
use vstd::prelude::*;

verus! {

/// Whether two lists of texts say the same.
pub open spec fn same_texts(a: Seq<String>, b: Seq<String>) -> bool {
    a.len() == b.len() && forall|n: int| 0 <= n < a.len() ==> (#[trigger] a[n])@ == b[n]@
}

proof fn lemma_same_texts(a: Seq<String>, b: Seq<String>)
    ensures
        text::texts(a) == text::texts(b) <==> same_texts(a, b),
{
    if text::texts(a) == text::texts(b) {
        assert(text::texts(a).len() == a.len());
        assert forall|n: int| 0 <= n < a.len() implies (#[trigger] a[n])@ == b[n]@ by {
            assert(text::texts(a)[n] == text::texts(b)[n]);
        }
    }
    if same_texts(a, b) {
        assert(text::texts(a) =~= text::texts(b));
    }
}

/// Whether two optional texts say the same, or are both missing.
pub open spec fn same_choice(a: Option<String>, b: Option<String>) -> bool {
    (a is Some <==> b is Some) && (a is Some ==> a->0@ == b->0@)
}

/// Two commands are the same where program, arguments and directory are.
pub proof fn law_commands_are_the_same_in_every_part(a: CommandSpec, b: CommandSpec)
    ensures
        protocol::same_command(a, b) <==> a.program@ == b.program@ && a.cwd@ == b.cwd@ && same_texts(
            a.args@,
            b.args@,
        ),
{
    lemma_same_texts(a.args@, b.args@);
}

/// Two verdicts are the same where verifier, target, decision and evidence are. Targets
/// are the same where they name one task and executor, or one plan and its executors.
pub proof fn law_verdicts_are_the_same_in_every_part(a: VerificationPacket, b: VerificationPacket)
    ensures
        protocol::same_verification(a, b) <==> {
            &&& a.verifier_job_id@ == b.verifier_job_id@
            &&& protocol::same_target(a.target, b.target)
            &&& a.decision == b.decision
            &&& same_texts(a.evidence@, b.evidence@)
            &&& a.rest@ == b.rest@
        },
        protocol::same_target(a.target, b.target) <==> {
            ||| a.target is Packet && b.target is Packet && a.target->Packet_task_id@
                == b.target->Packet_task_id@ && a.target->executor_job_id@
                == b.target->executor_job_id@
            ||| a.target is Integration && b.target is Integration && a.target->plan_id@
                == b.target->plan_id@ && same_texts(
                a.target->executor_job_ids@,
                b.target->executor_job_ids@,
            )
        },
{
    lemma_same_texts(a.evidence@, b.evidence@);
    match (a.target, b.target) {
        (
            VerificationTarget::Integration { plan_id: p, executor_job_ids: v },
            VerificationTarget::Integration { plan_id: q, executor_job_ids: w },
        ) => {
            lemma_same_texts(v@, w@);
        },
        _ => {},
    }
}

/// A task is carried over with everything that it says.
pub proof fn law_tasks_are_carried_over_whole(a: TaskPacket, b: TaskPacket)
    ensures
        protocol::same_packet(a, b) ==> {
            &&& a.task_id@ == b.task_id@
            &&& a.objective@ == b.objective@
            &&& same_texts(a.dependencies@, b.dependencies@)
            &&& a.read_scope@ == b.read_scope@
            &&& a.write_scope@ == b.write_scope@
            &&& same_texts(a.graph_entities@, b.graph_entities@)
            &&& same_texts(a.invariant_refs@, b.invariant_refs@)
            &&& same_texts(
                a.verification.requirement_refs@,
                b.verification.requirement_refs@,
            )
            &&& a.verification.evidence_required == b.verification.evidence_required
        },
{
}

/// A contract is carried over with everything that it binds.
pub proof fn law_contracts_are_carried_over_whole(a: VerificationContract, b: VerificationContract)
    ensures
        model::same_contract(a, b) ==> {
            &&& a.task_id@ == b.task_id@
            &&& a.task_packet_hash == b.task_packet_hash
            &&& a.independent_verifier == b.independent_verifier
            &&& a.input == b.input
            &&& same_texts(a.memory_refs@, b.memory_refs@)
            &&& a.exclusions@ == b.exclusions@
            &&& same_texts(a.non_goals@, b.non_goals@)
        },
{
}

/// Two source states are the same where commit and difference are.
pub proof fn law_source_states_are_the_same_in_both_parts(a: SourceStateRef, b: SourceStateRef)
    ensures
        model::same_source_ref(a, b) <==> same_choice(a.head_commit, b.head_commit) && same_choice(
            a.worktree_diff_hash,
            b.worktree_diff_hash,
        ),
{
}

/// Two provenances are the same where repository, workspace, path, content and backends
/// are.
pub proof fn law_provenances_are_the_same_in_every_part(a: Provenance, b: Provenance)
    ensures
        graph::same_provenance(a, b) <==> {
            &&& a.repository_id@ == b.repository_id@
            &&& a.workspace_id@ == b.workspace_id@
            &&& a.path@ == b.path@
            &&& a.content_hash@ == b.content_hash@
            &&& a.language_backend@ == b.language_backend@
            &&& a.backend@ == b.backend@
        },
{
}

/// Two generations of a graph are the same where sequence and fingerprint are, or where
/// there is none.
pub proof fn law_generations_are_the_same_in_both_parts(
    a: Option<GraphGeneration>,
    b: Option<GraphGeneration>,
)
    ensures
        graph::same_generation(a, b) <==> (a is Some <==> b is Some) && (a is Some ==> a->0.sequence
            == b->0.sequence && a->0.fingerprint@ == b->0.fingerprint@),
{
}

/// Two prepared sources are the same where what was observed, the policy, the graph and
/// every file they were made from are.
pub proof fn law_prepared_sources_are_the_same_in_every_part(
    a: PlanningSource,
    b: PlanningSource,
    n: int,
)
    ensures
        model::same_source(a, b) ==> {
            &&& repository::same_observation(a.observation, b.observation)
            &&& a.policy_hash@ == b.policy_hash@
            &&& a.graph_version@ == b.graph_version@
            &&& a.guarantee == b.guarantee
            &&& a.support@.len() == b.support@.len()
            &&& 0 <= n < a.support@.len() ==> graph::same_provenance(a.support@[n], b.support@[n])
        },
{
}

/// Two intents are the same only where everything that is wanted is.
pub proof fn law_intents_are_the_same_in_every_part(a: RequestDraft, b: RequestDraft)
    ensures
        model::same_intent(a, b) ==> {
            &&& a.objective@ == b.objective@
            &&& same_choice(a.query, b.query)
            &&& scope::same_scopes(a.scope@, b.scope@)
            &&& same_texts(a.constraints@, b.constraints@)
            &&& same_texts(a.definition_of_done@, b.definition_of_done@)
            &&& a.verification is Some <==> b.verification is Some
            &&& a.verification is Some ==> same_texts(
                a.verification->0.requirement_refs@,
                b.verification->0.requirement_refs@,
            ) && a.verification->0.evidence_required == b.verification->0.evidence_required
            &&& a.provenance.actor@ == b.provenance.actor@
            &&& same_texts(a.provenance.source_refs@, b.provenance.source_refs@)
            &&& a.provenance.provider is Some <==> b.provenance.provider is Some
            &&& a.provenance.provider is Some ==> a.provenance.provider->0.provider@
                == b.provenance.provider->0.provider@ && a.provenance.provider->0.model@
                == b.provenance.provider->0.model@
        },
{
    lemma_same_texts(a.constraints@, b.constraints@);
    lemma_same_texts(a.definition_of_done@, b.definition_of_done@);
    lemma_same_texts(a.provenance.source_refs@, b.provenance.source_refs@);
    if a.verification is Some && b.verification is Some {
        lemma_same_texts(
            a.verification->0.requirement_refs@,
            b.verification->0.requirement_refs@,
        );
    }
}

/// The limits of a planning context are between 4 KiB and 128 KiB in all, one to sixteen
/// files, and at most 4 KiB and eighty lines an excerpt.
pub proof fn law_planning_limits_are_bounded(l: PlanningLimits)
    ensures
        model::limits_ok(l) <==> {
            &&& 4096 <= l.bytes <= 131072
            &&& 1 <= l.files <= 16
            &&& l.excerpt_bytes <= 4096
            &&& l.excerpt_lines <= 80
        },
{
}

} // verus!
