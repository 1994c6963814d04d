//! The life of a stored plan: imported, activated, and then completed,
//! cancelled or superseded, never changed again.
use crate::error::{invalid, Error};
use crate::planning::completion;
use crate::planning::completion::ProofFacts;
use crate::planning::model::{
    ExecutionPlan, ExecutionPlanView, Invariant, PlanState, PlanSummary, PlannerPacket,
    ProjectPolicy, SourceStateRef, TaskInspection, VerificationContract,
};
use crate::planning::plan;
use crate::planning::plan::PlanFacts;
use crate::planning::validation;
use crate::protocol;
use crate::protocol::{AgentJob, TaskPacket, TaskState, VerificationPacket};
use crate::repository::{RepositoryInfo, WorkspaceId};
use crate::store;
use crate::store::{JournalEntry, Store, StoredPlan, TaskStatus};
use crate::text;
use vstd::prelude::*;

verus! {

/// Whether a plan can still change.
pub open spec fn mutable(state: PlanState) -> bool {
    state == PlanState::Validated || state == PlanState::Active
}

pub const TERMINAL: &'static str = "plan is terminal; history cannot be rewritten";

pub const UNFINISHED_JOBS: &'static str =
    "plan has unfinished jobs; settle them explicitly before cancellation/supersession";

/// Whether no job of a plan can still change.
pub open spec fn quiescent(jobs: Seq<AgentJob>, plan: Seq<char>) -> bool {
    forall|i: int|
        0 <= i < jobs.len() && (#[trigger] jobs[i]).plan_id@ == plan ==> !protocol::job_unfinished(
            jobs[i].state,
        )
}

fn is_quiescent(jobs: &Vec<AgentJob>, plan: &str) -> (r: bool)
    ensures
        r == quiescent(jobs@, plan@),
{
    let mut i: usize = 0;
    while i < jobs.len()
        invariant
            i <= jobs@.len(),
            forall|j: int|
                0 <= j < i && (#[trigger] jobs@[j]).plan_id@ == plan@ ==> !protocol::job_unfinished(
                    jobs@[j].state,
                ),
        decreases jobs@.len() - i,
    {
        if text::same(jobs[i].plan_id.as_str(), plan) && jobs[i].state.unfinished() {
            return false;
        }
        i += 1;
    }
    true
}

/// A stored plan whose lifecycle has moved on.
pub open spec fn moved(
    p: StoredPlan,
    state: PlanState,
    now_ms: u64,
    superseded_by: Option<String>,
    integration_proof: Option<VerificationPacket>,
    final_source: Option<SourceStateRef>,
) -> StoredPlan {
    StoredPlan {
        view: ExecutionPlanView {
            state,
            updated_at_ms: now_ms,
            superseded_by,
            integration_proof,
            final_source,
            ..p.view
        },
        ..p
    }
}

/// Whether only one plan and the journal changed: the plan to `next`, and the
/// journal by one entry.
pub open spec fn advances(before: Store, after: Store, k: int, next: StoredPlan) -> bool {
    &&& after.plans@ == before.plans@.update(k, next)
    &&& after.journal@ == before.journal@.push(after.journal@.last())
    &&& after.requests == before.requests
    &&& after.jobs == before.jobs
    &&& after.experiments == before.experiments
    &&& after.events == before.events
    &&& after.decisions == before.decisions
    &&& after.cursors == before.cursors
}

/// Why a plan cannot be activated, if anything.
pub open spec fn activation_refusal(
    records: Store,
    info: RepositoryInfo,
    id: Seq<char>,
    policy: ProjectPolicy,
    facts: PlanFacts,
) -> Option<Seq<char>> {
    match store::plan_at(records.plans@, info.workspace_id@, id, 0) {
        None => Some(plan::PLAN_NOT_FOUND@),
        Some(k) => if records.plans@[k].view.state != PlanState::Validated {
            Some("activation requires VALIDATED plan"@)
        } else {
            plan::plan_refusal(records.plans@[k].view.plan, records, info, policy, facts)
        },
    }
}

/// Why a stored plan cannot be revalidated, if anything.
pub open spec fn revalidation_refusal(
    records: Store,
    info: RepositoryInfo,
    id: Seq<char>,
    policy: ProjectPolicy,
    facts: PlanFacts,
) -> Option<Seq<char>> {
    match store::plan_at(records.plans@, info.workspace_id@, id, 0) {
        None => Some(plan::PLAN_NOT_FOUND@),
        Some(k) => if records.plans@[k].view.state != PlanState::Validated {
            Some(
                "only pending VALIDATED plans can be revalidated; inspect active/historical plans without rewriting them"@,
            )
        } else {
            plan::plan_refusal(records.plans@[k].view.plan, records, info, policy, facts)
        },
    }
}

/// Why a plan cannot be cancelled, if anything.
pub open spec fn cancellation_refusal(
    records: Store,
    workspace: Seq<char>,
    id: Seq<char>,
    reason: Seq<char>,
) -> Option<Seq<char>> {
    crate::error::either(
        validation::text_refusal(reason, 1024, "cancellation reason"@),
        match store::plan_at(records.plans@, workspace, id, 0) {
            None => Some(plan::PLAN_NOT_FOUND@),
            Some(k) => if !mutable(records.plans@[k].view.state) {
                Some(TERMINAL@)
            } else if !quiescent(records.jobs@, id) {
                Some(UNFINISHED_JOBS@)
            } else {
                None
            },
        },
    )
}

/// Why a plan cannot be superseded by another, if anything.
pub open spec fn supersession_refusal(
    records: Store,
    info: RepositoryInfo,
    original: Seq<char>,
    replacement: Seq<char>,
    policy: ProjectPolicy,
    facts: PlanFacts,
) -> Option<Seq<char>> {
    if original == replacement {
        Some("plan cannot supersede itself"@)
    } else {
        match (
            store::plan_at(records.plans@, info.workspace_id@, original, 0),
            store::plan_at(records.plans@, info.workspace_id@, replacement, 0),
        ) {
            (Some(k), Some(n)) => if !mutable(records.plans@[k].view.state) {
                Some(TERMINAL@)
            } else if !quiescent(records.jobs@, original) {
                Some(UNFINISHED_JOBS@)
            } else if records.plans@[n].view.state != PlanState::Validated {
                Some("replacement must be VALIDATED"@)
            } else {
                match records.plans@[n].view.plan.metadata.replan {
                    None => Some(
                        "replacement must explicitly reference prior plan and reason"@,
                    ),
                    Some(replan) => if replan.previous_plan_id@ != original {
                        Some("replacement names another prior plan"@)
                    } else {
                        plan::plan_refusal(
                            records.plans@[n].view.plan,
                            records,
                            info,
                            policy,
                            facts,
                        )
                    },
                }
            },
            _ => Some(plan::PLAN_NOT_FOUND@),
        }
    }
}

/// Why a plan cannot be completed, if anything. `source_refusal` and
/// `completion_refusal` are what the protocol has against the final source and
/// against completing the packet in the recorded states.
pub open spec fn completion_refusal(
    records: Store,
    workspace: Seq<char>,
    id: Seq<char>,
    given: VerificationPacket,
    source: SourceStateRef,
    source_refusal: Option<String>,
    completion_refusal: Option<String>,
    policy: ProjectPolicy,
    facts: ProofFacts,
) -> Option<Seq<char>> {
    crate::error::either(
        validation::message(source_refusal),
        match store::plan_at(records.plans@, workspace, id, 0) {
            None => Some(plan::PLAN_NOT_FOUND@),
            Some(k) => if records.plans@[k].view.state != PlanState::Active {
                Some("completion requires ACTIVE plan"@)
            } else {
                let p = records.plans@[k].view.plan;
                crate::error::either(
                    validation::message(completion_refusal),
                    match store::request_at(
                        records.requests@,
                        workspace,
                        p.metadata.request_id@,
                        0,
                    ) {
                        None => Some(plan::REQUEST_NOT_FOUND@),
                        Some(n) => completion::proof_refusal(
                            p,
                            records.requests@[n].packet,
                            policy,
                            workspace,
                            given,
                            source,
                            facts,
                        ),
                    },
                )
            },
        },
    )
}

pub const PLAN_EXISTS: &'static str = "execution plan already exists";

/// Whether a plan of any workspace has an identity.
pub open spec fn plan_known(plans: Seq<StoredPlan>, id: Seq<char>) -> bool {
    exists|i: int| 0 <= i < plans.len() && (#[trigger] plans[i]).view.plan.packet.plan_id@ == id
}

fn is_plan_known(plans: &Vec<StoredPlan>, id: &str) -> (r: bool)
    ensures
        r == plan_known(plans@, id@),
{
    let mut i: usize = 0;
    while i < plans.len()
        invariant
            i <= plans@.len(),
            forall|k: int|
                0 <= k < i ==> (#[trigger] plans@[k]).view.plan.packet.plan_id@ != id@,
        decreases plans@.len() - i,
    {
        if text::same(plans[i].view.plan.packet.plan_id.as_str(), id) {
            return true;
        }
        i += 1;
    }
    false
}

impl Store {
    /// The stored plan of a workspace.
    pub fn execution_plan(&self, workspace: &WorkspaceId, id: &str) -> (r: Result<
        &ExecutionPlanView,
        Error,
    >)
        ensures
            match store::plan_at(self.plans@, workspace@, id@, 0) {
                Some(k) => r == Ok::<&ExecutionPlanView, Error>(&self.plans@[k].view),
                None => crate::error::refused(r, plan::PLAN_NOT_FOUND@),
            },
    {
        match self.find_plan(workspace, id) {
            Some(k) => Ok(&self.plans[k].view),
            None => invalid(plan::PLAN_NOT_FOUND),
        }
    }

    /// Stores a plan that satisfies every rule, as VALIDATED and with every task
    /// PLANNED, and gives it back as it is stored. `insertion_refusal` is what the
    /// record of plan packets has against it; a plan whose identity is taken is
    /// refused in any case.
    pub fn import_execution_plan(
        &mut self,
        info: &RepositoryInfo,
        given: ExecutionPlan,
        policy: &ProjectPolicy,
        facts: &PlanFacts,
        insertion_refusal: &Option<String>,
        now_ms: u64,
    ) -> (r: Result<&ExecutionPlanView, Error>)
        requires
            facts.tasks@.len() == given.packet.tasks@.len(),
            facts.contract_bytes@.len() == given.metadata.contracts@.len(),
        ensures
            crate::error::settles(
                r,
                crate::error::either(
                    plan::plan_refusal(given, *old(self), *info, *policy, *facts),
                    crate::error::either(
                        validation::message(*insertion_refusal),
                        if plan_known(old(self).plans@, given.packet.plan_id@) {
                            Some(PLAN_EXISTS@)
                        } else {
                            None
                        },
                    ),
                ),
            ),
            r is Err ==> *final(self) == *old(self),
            r is Ok ==> {
                let n = old(self).plans@.len() as int;
                &&& final(self).requests == old(self).requests
                &&& final(self).jobs == old(self).jobs
                &&& final(self).experiments == old(self).experiments
                &&& final(self).events == old(self).events
                &&& final(self).decisions == old(self).decisions
                &&& final(self).cursors == old(self).cursors
                &&& final(self).plans@.len() == n + 1
                &&& final(self).plans@.take(n) == old(self).plans@
                &&& final(self).plans@[n].workspace_id@ == info.workspace_id@
                &&& r == Ok::<&ExecutionPlanView, Error>(&final(self).plans@[n].view)
                &&& final(self).plans@[n].view.plan == given
                &&& final(self).plans@[n].view.state == PlanState::Validated
                &&& final(self).plans@[n].view.updated_at_ms == now_ms
                &&& final(self).plans@[n].view.superseded_by is None
                &&& final(self).plans@[n].view.integration_proof is None
                &&& final(self).plans@[n].view.final_source is None
                &&& final(self).plans@[n].tasks@.len() == given.packet.tasks@.len()
                &&& forall|i: int|
                    0 <= i < given.packet.tasks@.len() ==> (#[trigger] final(self).plans@[n].tasks@[i]).task_id == given.packet.tasks@[i].task_id
                        && final(self).plans@[n].tasks@[i].state == TaskState::Planned
                &&& final(self).journal@ == old(self).journal@.push(
                    JournalEntry::ExecutionPlanImported { plan_id: given.packet.plan_id },
                ).push(JournalEntry::ExecutionPlanValidated { plan_id: given.packet.plan_id })
            },
    {
        match plan::validate(&given, self, info, policy, facts) {
            Ok(()) => {},
            Err(e) => return Err(e),
        }
        match validation::unless(insertion_refusal) {
            Ok(()) => {},
            Err(e) => return Err(e),
        }
        if is_plan_known(&self.plans, given.packet.plan_id.as_str()) {
            return invalid(PLAN_EXISTS);
        }
        let replay: completion::Replay = completion::Replay::begin(&given.packet);
        let imported: String = given.packet.plan_id.clone();
        let validated: String = given.packet.plan_id.clone();
        self.plans.push(
            StoredPlan {
                workspace_id: info.workspace_id.clone(),
                view: ExecutionPlanView {
                    plan: given,
                    state: PlanState::Validated,
                    updated_at_ms: now_ms,
                    superseded_by: None,
                    integration_proof: None,
                    final_source: None,
                },
                tasks: replay.states,
            },
        );
        assert(self.plans@.take(old(self).plans@.len() as int) =~= old(self).plans@);
        self.journal.push(JournalEntry::ExecutionPlanImported { plan_id: imported });
        self.journal.push(JournalEntry::ExecutionPlanValidated { plan_id: validated });
        Ok(&self.plans[self.plans.len() - 1].view)
    }

    /// Checks a pending plan again, against the records, policy and checkout of
    /// now, and gives it back. The plan itself stays as it is.
    pub fn validate_execution_plan(
        &mut self,
        info: &RepositoryInfo,
        id: &str,
        policy: &ProjectPolicy,
        facts: &PlanFacts,
    ) -> (r: Result<&ExecutionPlanView, Error>)
        requires
            measured(*old(self), info.workspace_id@, id@, *facts),
        ensures
            crate::error::settles(r, revalidation_refusal(*old(self), *info, id@, *policy, *facts)),
            r is Err ==> *final(self) == *old(self),
            r is Ok ==> {
                    &&& final(self).journal@ == old(self).journal@.push(final(self).journal@.last())
                    &&& final(self).plans == old(self).plans
                    &&& r == Ok::<&ExecutionPlanView, Error>(
                        &final(self).plans@[store::plan_at(
                            old(self).plans@,
                            info.workspace_id@,
                            id@,
                            0,
                        )->0].view,
                    )
                    &&& final(self).requests == old(self).requests
                    &&& final(self).jobs == old(self).jobs
                    &&& final(self).experiments == old(self).experiments
                    &&& final(self).events == old(self).events
                    &&& final(self).decisions == old(self).decisions
                    &&& final(self).cursors == old(self).cursors
                    &&& final(self).journal@.last() matches JournalEntry::ExecutionPlanValidated { plan_id }
                    &&& plan_id@ == id@
                },
    {
        let k: usize = match self.find_plan(&info.workspace_id, id) {
            Some(k) => k,
            None => return invalid(plan::PLAN_NOT_FOUND),
        };
        if self.plans[k].view.state != PlanState::Validated {
            return invalid(
                "only pending VALIDATED plans can be revalidated; inspect active/historical plans without rewriting them",
            );
        }
        match plan::validate(&self.plans[k].view.plan, self, info, policy, facts) {
            Ok(()) => {},
            Err(e) => return Err(e),
        }
        let entry: JournalEntry = JournalEntry::ExecutionPlanValidated { plan_id: id.to_owned() };
        self.journal.push(entry);
        Ok(&self.plans[k].view)
    }

    /// Activates a VALIDATED plan that still satisfies every rule.
    pub fn activate_execution_plan(
        &mut self,
        info: &RepositoryInfo,
        id: &str,
        policy: &ProjectPolicy,
        facts: &PlanFacts,
        now_ms: u64,
    ) -> (r: Result<(), Error>)
        requires
            measured(*old(self), info.workspace_id@, id@, *facts),
        ensures
            crate::error::settles(r, activation_refusal(*old(self), *info, id@, *policy, *facts)),
            r is Err ==> *final(self) == *old(self),
            r is Ok ==> {
                    let k = store::plan_at(old(self).plans@, info.workspace_id@, id@, 0)->0;
                    let p = old(self).plans@[k];
                    &&& advances(
                        *old(self),
                        *final(self),
                        k,
                        moved(
                            p,
                            PlanState::Active,
                            now_ms,
                            p.view.superseded_by,
                            p.view.integration_proof,
                            p.view.final_source,
                        ),
                    )
                    &&& final(self).journal@.last() matches JournalEntry::ExecutionPlanActivated { plan_id }
                    &&& plan_id@ == id@
                },
    {
        let k: usize = match self.find_plan(&info.workspace_id, id) {
            Some(k) => k,
            None => return invalid(plan::PLAN_NOT_FOUND),
        };
        if self.plans[k].view.state != PlanState::Validated {
            return invalid("activation requires VALIDATED plan");
        }
        match plan::validate(&self.plans[k].view.plan, self, info, policy, facts) {
            Ok(()) => {},
            Err(e) => return Err(e),
        }
        self.plans[k].view.state = PlanState::Active;
        self.plans[k].view.updated_at_ms = now_ms;
        let entry: JournalEntry = JournalEntry::ExecutionPlanActivated { plan_id: id.to_owned() };
        self.journal.push(entry);
        proof {
            let p = old(self).plans@[k as int];
            let next = moved(
                p,
                PlanState::Active,
                now_ms,
                p.view.superseded_by,
                p.view.integration_proof,
                p.view.final_source,
            );
            assert(self.plans@ =~= old(self).plans@.update(k as int, next));
            assert(advances(*old(self), *self, k as int, next));
        }
        Ok(())
    }

    /// Cancels a plan that can still change and has no unfinished jobs.
    pub fn cancel_execution_plan(
        &mut self,
        workspace: &WorkspaceId,
        id: &str,
        reason: &str,
        now_ms: u64,
    ) -> (r: Result<(), Error>)
        ensures
            crate::error::settles(r, cancellation_refusal(*old(self), workspace@, id@, reason@)),
            r is Err ==> *final(self) == *old(self),
            r is Ok ==> {
                    let k = store::plan_at(old(self).plans@, workspace@, id@, 0)->0;
                    let p = old(self).plans@[k];
                    &&& advances(
                        *old(self),
                        *final(self),
                        k,
                        moved(
                            p,
                            PlanState::Cancelled,
                            now_ms,
                            p.view.superseded_by,
                            p.view.integration_proof,
                            p.view.final_source,
                        ),
                    )
                    &&& final(self).journal@.last() matches JournalEntry::ExecutionPlanCancelled { plan_id, reason: why }
                    &&& plan_id@ == id@ && why@ == reason@
                },
    {
        match validation::validate_text(reason, 1024, "cancellation reason") {
            Ok(()) => {},
            Err(e) => return Err(e),
        }
        let k: usize = match self.find_plan(workspace, id) {
            Some(k) => k,
            None => return invalid(plan::PLAN_NOT_FOUND),
        };
        match self.plans[k].view.state {
            PlanState::Validated | PlanState::Active => {},
            _ => return invalid(TERMINAL),
        }
        if !is_quiescent(&self.jobs, id) {
            return invalid(UNFINISHED_JOBS);
        }
        self.plans[k].view.state = PlanState::Cancelled;
        self.plans[k].view.updated_at_ms = now_ms;
        let entry: JournalEntry = JournalEntry::ExecutionPlanCancelled {
            plan_id: id.to_owned(),
            reason: reason.to_owned(),
        };
        self.journal.push(entry);
        proof {
            let p = old(self).plans@[k as int];
            let next = moved(
                p,
                PlanState::Cancelled,
                now_ms,
                p.view.superseded_by,
                p.view.integration_proof,
                p.view.final_source,
            );
            assert(self.plans@ =~= old(self).plans@.update(k as int, next));
            assert(advances(*old(self), *self, k as int, next));
        }
        Ok(())
    }

    /// Puts a VALIDATED plan that names its predecessor and the reason in the
    /// place of that predecessor.
    pub fn supersede_execution_plan(
        &mut self,
        info: &RepositoryInfo,
        original: &str,
        replacement: &str,
        policy: &ProjectPolicy,
        facts: &PlanFacts,
        now_ms: u64,
    ) -> (r: Result<(), Error>)
        requires
            measured(*old(self), info.workspace_id@, replacement@, *facts),
        ensures
            crate::error::settles(
                r,
                supersession_refusal(
                    *old(self),
                    *info,
                    original@,
                    replacement@,
                    *policy,
                    *facts,
                ),
            ),
            r is Err ==> *final(self) == *old(self),
            r is Ok ==> {
                    let k = store::plan_at(old(self).plans@, info.workspace_id@, original@, 0)->0;
                    let n = store::plan_at(
                        old(self).plans@,
                        info.workspace_id@,
                        replacement@,
                        0,
                    )->0;
                    let p = old(self).plans@[k];
                    &&& advances(
                        *old(self),
                        *final(self),
                        k,
                        moved(
                            p,
                            PlanState::Superseded,
                            now_ms,
                            final(self).plans@[k].view.superseded_by,
                            p.view.integration_proof,
                            p.view.final_source,
                        ),
                    )
                    &&& validation::is_text(final(self).plans@[k].view.superseded_by, replacement@)
                    &&& final(self).journal@.last() matches JournalEntry::ExecutionPlanSuperseded {
                        original: from,
                        replacement: to,
                        reason,
                    }
                    &&& from@ == original@ && to@ == replacement@
                    &&& old(self).plans@[n].view.plan.metadata.replan matches Some(replan)
                    &&& reason@ == replan.reason@
                },
    {
        if text::same(original, replacement) {
            return invalid("plan cannot supersede itself");
        }
        let k: usize = match self.find_plan(&info.workspace_id, original) {
            Some(k) => k,
            None => return invalid(plan::PLAN_NOT_FOUND),
        };
        let n: usize = match self.find_plan(&info.workspace_id, replacement) {
            Some(n) => n,
            None => return invalid(plan::PLAN_NOT_FOUND),
        };
        match self.plans[k].view.state {
            PlanState::Validated | PlanState::Active => {},
            _ => return invalid(TERMINAL),
        }
        if !is_quiescent(&self.jobs, original) {
            return invalid(UNFINISHED_JOBS);
        }
        if self.plans[n].view.state != PlanState::Validated {
            return invalid("replacement must be VALIDATED");
        }
        let reason: String = match &self.plans[n].view.plan.metadata.replan {
            None => return invalid("replacement must explicitly reference prior plan and reason"),
            Some(replan) => {
                if !text::same(replan.previous_plan_id.as_str(), original) {
                    return invalid("replacement names another prior plan");
                }
                replan.reason.clone()
            },
        };
        match plan::validate(&self.plans[n].view.plan, self, info, policy, facts) {
            Ok(()) => {},
            Err(e) => return Err(e),
        }
        let by: String = replacement.to_owned();
        let ghost named = by;
        self.plans[k].view.state = PlanState::Superseded;
        self.plans[k].view.superseded_by = Some(by);
        self.plans[k].view.updated_at_ms = now_ms;
        let entry: JournalEntry = JournalEntry::ExecutionPlanSuperseded {
            original: original.to_owned(),
            replacement: replacement.to_owned(),
            reason,
        };
        self.journal.push(entry);
        proof {
            let p = old(self).plans@[k as int];
            let next = moved(
                p,
                PlanState::Superseded,
                now_ms,
                Some(named),
                p.view.integration_proof,
                p.view.final_source,
            );
            assert(self.plans@ =~= old(self).plans@.update(k as int, next));
            assert(advances(*old(self), *self, k as int, next));
        }
        Ok(())
    }

    /// Accepts an integration proof that was recorded elsewhere; runs no check
    /// and no job.
    pub fn complete_execution_plan(
        &mut self,
        workspace: &WorkspaceId,
        id: &str,
        given: VerificationPacket,
        source: SourceStateRef,
        source_refusal: &Option<String>,
        packet_refusal: &Option<String>,
        policy: &ProjectPolicy,
        facts: &ProofFacts,
        now_ms: u64,
    ) -> (r: Result<(), Error>)
        requires
            store::plan_at(old(self).plans@, workspace@, id@, 0) matches Some(k)
                ==> facts.accepted@.len() == old(self).plans@[k].view.plan.packet.tasks@.len(),
        ensures
            crate::error::settles(
                r,
                completion_refusal(
                    *old(self),
                    workspace@,
                    id@,
                    given,
                    source,
                    *source_refusal,
                    *packet_refusal,
                    *policy,
                    *facts,
                ),
            ),
            r is Err ==> *final(self) == *old(self),
            r is Ok ==> {
                    let k = store::plan_at(old(self).plans@, workspace@, id@, 0)->0;
                    let p = old(self).plans@[k];
                    &&& advances(
                        *old(self),
                        *final(self),
                        k,
                        moved(
                            p,
                            PlanState::Complete,
                            now_ms,
                            p.view.superseded_by,
                            Some(given),
                            Some(source),
                        ),
                    )
                    &&& final(self).journal@.last() matches JournalEntry::ExecutionPlanCompleted {
                        plan_id,
                        verification,
                        source: recorded,
                    }
                    &&& plan_id@ == id@
                    &&& protocol::same_verification(verification, given)
                    &&& crate::planning::model::same_source_ref(recorded, source)
                },
    {
        match validation::unless(source_refusal) {
            Ok(()) => {},
            Err(e) => return Err(e),
        }
        let k: usize = match self.find_plan(workspace, id) {
            Some(k) => k,
            None => return invalid(plan::PLAN_NOT_FOUND),
        };
        if self.plans[k].view.state != PlanState::Active {
            return invalid("completion requires ACTIVE plan");
        }
        match validation::unless(packet_refusal) {
            Ok(()) => {},
            Err(e) => return Err(e),
        }
        let n: usize = match self.find_request(
            workspace,
            self.plans[k].view.plan.metadata.request_id.as_str(),
        ) {
            Some(n) => n,
            None => return invalid(plan::REQUEST_NOT_FOUND),
        };
        match completion::integration_proof(
            &self.plans[k].view.plan,
            &self.requests[n].packet,
            policy,
            workspace,
            &given,
            &source,
            facts,
        ) {
            Ok(()) => {},
            Err(e) => return Err(e),
        }
        let entry: JournalEntry = JournalEntry::ExecutionPlanCompleted {
            plan_id: id.to_owned(),
            verification: given.copy(),
            source: source.copy(),
        };
        self.plans[k].view.state = PlanState::Complete;
        self.plans[k].view.updated_at_ms = now_ms;
        self.plans[k].view.integration_proof = Some(given);
        self.plans[k].view.final_source = Some(source);
        self.journal.push(entry);
        proof {
            let p = old(self).plans@[k as int];
            let next = moved(
                p,
                PlanState::Complete,
                now_ms,
                p.view.superseded_by,
                Some(given),
                Some(source),
            );
            assert(self.plans@ =~= old(self).plans@.update(k as int, next));
            assert(advances(*old(self), *self, k as int, next));
        }
        Ok(())
    }
}

/// Whether measured facts belong to a stored plan.
pub open spec fn measured(records: Store, workspace: Seq<char>, id: Seq<char>, facts: PlanFacts) -> bool {
    store::plan_at(records.plans@, workspace, id, 0) matches Some(k) ==> {
        &&& facts.tasks@.len() == records.plans@[k].view.plan.packet.tasks@.len()
        &&& facts.contract_bytes@.len() == records.plans@[k].view.plan.metadata.contracts@.len()
    }
}

/// A plan that is complete, superseded or cancelled is refused every change:
/// it can be neither activated, cancelled, superseded nor completed again.
pub proof fn law_terminal_plans_never_change(
    records: Store,
    info: RepositoryInfo,
    id: Seq<char>,
    other: Seq<char>,
    reason: Seq<char>,
    policy: ProjectPolicy,
    facts: PlanFacts,
    given: VerificationPacket,
    source: SourceStateRef,
    source_refusal: Option<String>,
    packet_refusal: Option<String>,
    proof_facts: ProofFacts,
)
    requires
        store::plan_at(records.plans@, info.workspace_id@, id, 0) matches Some(k) && !mutable(
            records.plans@[k].view.state,
        ),
    ensures
        activation_refusal(records, info, id, policy, facts) is Some,
        cancellation_refusal(records, info.workspace_id@, id, reason) is Some,
        supersession_refusal(records, info, id, other, policy, facts) is Some,
        completion_refusal(
            records,
            info.workspace_id@,
            id,
            given,
            source,
            source_refusal,
            packet_refusal,
            policy,
            proof_facts,
        ) is Some,
{
}

// ---------------------------------------------------------------------------
// Inspection
// ---------------------------------------------------------------------------

/// What the protocol says of a task in the recorded states, and the bytes of
/// its packet as compact JSON.
#[derive(Debug)]
pub struct TaskGuard {
    pub bytes: usize,
    /// Whether a PLANNED task may become READY.
    pub may_be_ready: bool,
    /// Whether a READY task is runnable, or why that cannot be said.
    pub runnable: bool,
    pub runnable_refusal: Option<String>,
}

/// The position of the first contract of a task.
pub open spec fn contract_at(contracts: Seq<VerificationContract>, id: Seq<char>, i: int) -> Option<
    int,
>
    decreases contracts.len() - i,
{
    if i < 0 || i >= contracts.len() {
        None
    } else if contracts[i].task_id@ == id {
        Some(i)
    } else {
        contract_at(contracts, id, i + 1)
    }
}

pub fn find_contract(contracts: &Vec<VerificationContract>, id: &str) -> (r: Option<usize>)
    ensures
        match r {
            Some(i) => i < contracts@.len() && contract_at(contracts@, id@, 0) == Some(i as int),
            None => contract_at(contracts@, id@, 0) is None,
        },
{
    let mut i: usize = 0;
    while i < contracts.len()
        invariant
            i <= contracts@.len(),
            contract_at(contracts@, id@, 0) == contract_at(contracts@, id@, i as int),
        decreases contracts@.len() - i,
    {
        if text::same(contracts[i].task_id.as_str(), id) {
            return Some(i);
        }
        i += 1;
    }
    None
}

/// How a recorded state is shown where it may be missing.
pub open spec fn shown_state(state: Option<TaskState>) -> Seq<char> {
    match state {
        Some(s) => "Some("@ + protocol::task_state_name(s) + ")"@,
        None => "None"@,
    }
}

/// What keeps a task waiting for its dependencies, from the `i`-th on.
pub open spec fn waiting(dependencies: Seq<Seq<char>>, states: Seq<TaskStatus>, i: int) -> Seq<
    Seq<char>,
>
    decreases dependencies.len() - i,
{
    if i < 0 || i >= dependencies.len() {
        Seq::empty()
    } else if store::state_of(states, dependencies[i], 0) == Some(TaskState::Verified) {
        waiting(dependencies, states, i + 1)
    } else {
        seq![
            dependencies[i] + " is "@ + shown_state(store::state_of(states, dependencies[i], 0))
                + ", not VERIFIED"@,
        ] + waiting(dependencies, states, i + 1)
    }
}

/// Why a task is not ready to run: the state of its plan, its own state, and
/// each dependency that is not VERIFIED.
pub open spec fn reasons(
    plan_state: PlanState,
    state: TaskState,
    dependencies: Seq<Seq<char>>,
    states: Seq<TaskStatus>,
) -> Seq<Seq<char>> {
    (if mutable(plan_state) {
        Seq::empty()
    } else {
        seq!["plan is "@ + crate::planning::model::plan_state_name(plan_state)]
    }) + (if state == TaskState::Planned || state == TaskState::Ready {
        Seq::empty()
    } else {
        seq![
            "task is "@ + protocol::task_state_name(state)
                + "; only PLANNED/READY tasks are candidates"@,
        ]
    }) + waiting(dependencies, states, 0)
}

fn explain(
    plan_state: PlanState,
    state: TaskState,
    dependencies: &Vec<String>,
    states: &Vec<TaskStatus>,
) -> (r: Vec<String>)
    ensures
        text::texts(r@) == reasons(plan_state, state, text::texts(dependencies@), states@),
{
    let mut out: Vec<String> = Vec::new();
    match plan_state {
        PlanState::Validated | PlanState::Active => {},
        _ => {
            out.push(text::join2("plan is ", plan_state.name()));
        },
    }
    let ghost first: Seq<Seq<char>> = if mutable(plan_state) {
        Seq::empty()
    } else {
        seq!["plan is "@ + crate::planning::model::plan_state_name(plan_state)]
    };
    assert(text::texts(out@) =~= first);
    match state {
        TaskState::Planned | TaskState::Ready => {},
        _ => {
            out.push(
                text::join3(
                    "task is ",
                    state.name(),
                    "; only PLANNED/READY tasks are candidates",
                ),
            );
        },
    }
    let ghost second: Seq<Seq<char>> = first + (if state == TaskState::Planned || state
        == TaskState::Ready {
        Seq::empty()
    } else {
        seq![
            "task is "@ + protocol::task_state_name(state)
                + "; only PLANNED/READY tasks are candidates"@,
        ]
    });
    assert(text::texts(out@) =~= second);
    let ghost all = text::texts(dependencies@);
    let mut i: usize = 0;
    while i < dependencies.len()
        invariant
            all == text::texts(dependencies@),
            i <= dependencies@.len(),
            text::texts(out@) + waiting(all, states@, i as int) == second + waiting(
                all,
                states@,
                0,
            ),
        decreases dependencies@.len() - i,
    {
        let ghost so_far = text::texts(out@);
        assert(all[i as int] == dependencies@[i as int]@);
        let dependency: &str = dependencies[i].as_str();
        let found: Option<TaskState> = store::task_state(states, dependency);
        let verified: bool = match found {
            Some(TaskState::Verified) => true,
            _ => false,
        };
        if !verified {
            let shown: String = match found {
                Some(s) => text::join3("Some(", s.name(), ")"),
                None => "None".to_owned(),
            };
            let m: String = text::join3(dependency, " is ", shown.as_str());
            let m: String = text::join2(m.as_str(), ", not VERIFIED");
            let ghost said = m@;
            out.push(m);
            proof {
                assert(text::texts(out@) =~= so_far.push(said));
                assert(text::texts(out@) + waiting(all, states@, i + 1) =~= so_far + (seq![said]
                    + waiting(all, states@, i + 1)));
            }
        }
        i += 1;
    }
    assert(text::texts(out@) + waiting(all, states@, i as int) =~= text::texts(out@));
    assert(second + waiting(all, states@, 0) =~= reasons(plan_state, state, all, states@));
    out
}

/// Whether a task can be started, given that nothing speaks against it.
pub open spec fn startable(state: TaskState, guard: TaskGuard) -> bool {
    match state {
        TaskState::Planned => guard.may_be_ready,
        TaskState::Ready => guard.runnable,
        _ => false,
    }
}

/// Why the tasks of a plan cannot be inspected, from the `i`-th on.
pub open spec fn inspection_refusal(
    p: StoredPlan,
    guards: Seq<TaskGuard>,
    i: int,
) -> Option<Seq<char>>
    decreases p.view.plan.packet.tasks@.len() - i,
{
    let tasks = p.view.plan.packet.tasks@;
    if i < 0 || i >= tasks.len() {
        None
    } else {
        match store::state_of(p.tasks@, tasks[i].task_id@, 0) {
            None => Some("task state missing"@),
            Some(state) => if contract_at(p.view.plan.metadata.contracts@, tasks[i].task_id@, 0) is None {
                Some("verification contract missing"@)
            } else {
                crate::error::either(
                    if state == TaskState::Ready && reasons(
                        p.view.state,
                        state,
                        text::texts(tasks[i].dependencies@),
                        p.tasks@,
                    ).len() == 0 {
                        validation::message(guards[i].runnable_refusal)
                    } else {
                        None
                    },
                    inspection_refusal(p, guards, i + 1),
                )
            },
        }
    }
}

/// The invariants whose keys are among some references, from the `i`-th on.
pub open spec fn selected(list: Seq<Invariant>, refs: Seq<Seq<char>>, i: int) -> Seq<Invariant>
    decreases list.len() - i,
{
    if i < 0 || i >= list.len() {
        Seq::empty()
    } else if refs.contains(list[i].key@) {
        seq![list[i]] + selected(list, refs, i + 1)
    } else {
        selected(list, refs, i + 1)
    }
}

fn select(list: &Vec<Invariant>, refs: &Vec<String>) -> (r: Vec<Invariant>)
    ensures
        r@ == selected(list@, text::texts(refs@), 0),
{
    let mut out: Vec<Invariant> = Vec::new();
    let ghost all = text::texts(refs@);
    let mut i: usize = 0;
    while i < list.len()
        invariant
            all == text::texts(refs@),
            i <= list@.len(),
            out@ + selected(list@, all, i as int) == selected(list@, all, 0),
        decreases list@.len() - i,
    {
        let ghost so_far = out@;
        if text::among(refs, list[i].key.as_str()) {
            let item: Invariant = Invariant {
                key: list[i].key.clone(),
                content: list[i].content.clone(),
            };
            out.push(item);
            proof {
                assert(item == list@[i as int]);
                assert(out@ + selected(list@, all, i + 1) =~= so_far + (seq![list@[i as int]]
                    + selected(list@, all, i + 1)));
            }
        }
        i += 1;
    }
    assert(out@ + selected(list@, all, i as int) =~= out@);
    out
}

/// Whether an inspection shows one task of a stored plan.
pub open spec fn shows(
    x: TaskInspection,
    p: StoredPlan,
    prepared: PlannerPacket,
    guards: Seq<TaskGuard>,
    contract_bytes: Seq<usize>,
    t: int,
) -> bool {
    let task = p.view.plan.packet.tasks@[t];
    let c = contract_at(p.view.plan.metadata.contracts@, task.task_id@, 0)->0;
    &&& x.planning_request_id@ == p.view.plan.metadata.request_id@
    &&& crate::planning::model::same_source(x.source, p.view.plan.metadata.source)
    &&& x.constraints@ == prepared.request.intent.constraints@
    &&& x.invariants@ == selected(
        prepared.context.invariants@,
        text::texts(task.invariant_refs@),
        0,
    )
    &&& protocol::same_packet(x.packet, task)
    &&& crate::planning::model::same_contract(x.contract, p.view.plan.metadata.contracts@[c])
    &&& Some(x.state) == store::state_of(p.tasks@, task.task_id@, 0)
    &&& text::texts(x.reasons@) == reasons(
        p.view.state,
        x.state,
        text::texts(task.dependencies@),
        p.tasks@,
    )
    &&& x.structurally_ready == (x.reasons@.len() == 0 && startable(x.state, guards[t]))
    &&& x.packet_bytes == guards[t].bytes
    &&& x.contract_bytes == contract_bytes[c]
}

fn check_inspection(p: &StoredPlan, guards: &Vec<TaskGuard>) -> (r: Result<(), Error>)
    requires
        guards@.len() == p.view.plan.packet.tasks@.len(),
    ensures
        crate::error::settles(r, inspection_refusal(*p, guards@, 0)),
        r is Ok ==> forall|t: int|
            0 <= t < p.view.plan.packet.tasks@.len() ==> store::state_of(
                p.tasks@,
                (#[trigger] p.view.plan.packet.tasks@[t]).task_id@,
                0,
            ) is Some && contract_at(
                p.view.plan.metadata.contracts@,
                p.view.plan.packet.tasks@[t].task_id@,
                0,
            ) is Some,
{
    let tasks: &Vec<TaskPacket> = &p.view.plan.packet.tasks;
    let mut i: usize = 0;
    while i < tasks.len()
        invariant
            tasks == p.view.plan.packet.tasks,
            guards@.len() == tasks@.len(),
            i <= tasks@.len(),
            inspection_refusal(*p, guards@, 0) == inspection_refusal(*p, guards@, i as int),
            forall|t: int|
                0 <= t < i ==> store::state_of(p.tasks@, (#[trigger] tasks@[t]).task_id@, 0) is Some
                    && contract_at(p.view.plan.metadata.contracts@, tasks@[t].task_id@, 0) is Some,
        decreases tasks@.len() - i,
    {
        let id: &str = tasks[i].task_id.as_str();
        let state: TaskState = match store::task_state(&p.tasks, id) {
            Some(s) => s,
            None => return invalid("task state missing"),
        };
        if find_contract(&p.view.plan.metadata.contracts, id).is_none() {
            return invalid("verification contract missing");
        }
        let why: Vec<String> = explain(p.view.state, state, &tasks[i].dependencies, &p.tasks);
        assert(text::texts(why@).len() == why@.len());
        if state == TaskState::Ready && why.len() == 0 {
            if let Some(m) = &guards[i].runnable_refusal {
                return invalid(m.as_str());
            }
        }
        i += 1;
    }
    Ok(())
}

fn inspect(
    p: &StoredPlan,
    prepared: &PlannerPacket,
    guards: &Vec<TaskGuard>,
    contract_bytes: &Vec<usize>,
    t: usize,
) -> (r: TaskInspection)
    requires
        guards@.len() == p.view.plan.packet.tasks@.len(),
        contract_bytes@.len() == p.view.plan.metadata.contracts@.len(),
        t < p.view.plan.packet.tasks@.len(),
        store::state_of(p.tasks@, p.view.plan.packet.tasks@[t as int].task_id@, 0) is Some,
        contract_at(
            p.view.plan.metadata.contracts@,
            p.view.plan.packet.tasks@[t as int].task_id@,
            0,
        ) is Some,
    ensures
        shows(r, *p, *prepared, guards@, contract_bytes@, t as int),
{
    let task: &TaskPacket = &p.view.plan.packet.tasks[t];
    let state: TaskState = store::task_state(&p.tasks, task.task_id.as_str()).unwrap();
    let c: usize = find_contract(
        &p.view.plan.metadata.contracts,
        task.task_id.as_str(),
    ).unwrap();
    let why: Vec<String> = explain(p.view.state, state, &task.dependencies, &p.tasks);
    let able: bool = match state {
        TaskState::Planned => guards[t].may_be_ready,
        TaskState::Ready => guards[t].runnable,
        _ => false,
    };
    TaskInspection {
        planning_request_id: p.view.plan.metadata.request_id.clone(),
        source: p.view.plan.metadata.source.copy(),
        constraints: text::copied(&prepared.request.intent.constraints),
        invariants: select(&prepared.context.invariants, &task.invariant_refs),
        packet: task.copy(),
        contract: p.view.plan.metadata.contracts[c].copy(),
        state,
        structurally_ready: why.len() == 0 && able,
        reasons: why,
        packet_bytes: guards[t].bytes,
        contract_bytes: contract_bytes[c],
    }
}

/// The identifiers of some tasks.
pub open spec fn task_ids(tasks: Seq<TaskPacket>) -> Seq<Seq<char>> {
    tasks.map_values(|t: TaskPacket| t.task_id@)
}

fn ids_of(tasks: &Vec<TaskPacket>) -> (r: Vec<String>)
    ensures
        text::texts(r@) == task_ids(tasks@),
{
    let mut out: Vec<String> = Vec::new();
    let mut i: usize = 0;
    while i < tasks.len()
        invariant
            i <= tasks@.len(),
            out@.len() == i,
            forall|j: int| 0 <= j < i ==> (#[trigger] out@[j])@ == tasks@[j].task_id@,
        decreases tasks@.len() - i,
    {
        out.push(tasks[i].task_id.clone());
        i += 1;
    }
    assert(text::texts(out@) =~= task_ids(tasks@));
    out
}

/// Whether inspections show every task of a stored plan once, sorted by
/// identifier.
pub open spec fn shows_all(
    list: Seq<TaskInspection>,
    p: StoredPlan,
    prepared: PlannerPacket,
    guards: Seq<TaskGuard>,
    contract_bytes: Seq<usize>,
) -> bool {
    exists|order: Seq<usize>|
        {
            &&& #[trigger] text::sorts(
                order,
                task_ids(p.view.plan.packet.tasks@),
                p.view.plan.packet.tasks@.len() as int,
            )
            &&& list.len() == order.len()
            &&& forall|i: int|
                0 <= i < list.len() ==> shows(
                    #[trigger] list[i],
                    p,
                    prepared,
                    guards,
                    contract_bytes,
                    order[i] as int,
                )
        }
}

/// Why the tasks of a plan cannot be listed, if anything.
pub open spec fn tasks_refusal(
    records: Store,
    workspace: Seq<char>,
    id: Seq<char>,
    guards: Seq<TaskGuard>,
) -> Option<Seq<char>> {
    match store::plan_at(records.plans@, workspace, id, 0) {
        None => Some(plan::PLAN_NOT_FOUND@),
        Some(k) => {
            let p = records.plans@[k];
            if store::request_at(
                records.requests@,
                workspace,
                p.view.plan.metadata.request_id@,
                0,
            ) is None {
                Some(plan::REQUEST_NOT_FOUND@)
            } else {
                inspection_refusal(p, guards, 0)
            }
        },
    }
}

impl Store {
    /// The tasks of a plan as an operator inspects them: what each is, what it
    /// waits for and whether it can be started. `guards` and `contract_bytes`
    /// are in the order of the plan's tasks and contracts.
    pub fn execution_tasks(
        &self,
        workspace: &WorkspaceId,
        id: &str,
        guards: &Vec<TaskGuard>,
        contract_bytes: &Vec<usize>,
    ) -> (r: Result<Vec<TaskInspection>, Error>)
        requires
            store::plan_at(self.plans@, workspace@, id@, 0) matches Some(k) ==> guards@.len()
                == self.plans@[k].view.plan.packet.tasks@.len() && contract_bytes@.len()
                == self.plans@[k].view.plan.metadata.contracts@.len(),
        ensures
            crate::error::settles(r, tasks_refusal(*self, workspace@, id@, guards@)),
            r matches Ok(list) ==> {
                let p = self.plans@[store::plan_at(self.plans@, workspace@, id@, 0)->0];
                let n = store::request_at(
                    self.requests@,
                    workspace@,
                    p.view.plan.metadata.request_id@,
                    0,
                )->0;
                shows_all(list@, p, self.requests@[n].packet, guards@, contract_bytes@)
            },
    {
        let k: usize = match self.find_plan(workspace, id) {
            Some(k) => k,
            None => return invalid(plan::PLAN_NOT_FOUND),
        };
        let p: &StoredPlan = &self.plans[k];
        let n: usize = match self.find_request(
            workspace,
            p.view.plan.metadata.request_id.as_str(),
        ) {
            Some(n) => n,
            None => return invalid(plan::REQUEST_NOT_FOUND),
        };
        let prepared: &PlannerPacket = &self.requests[n].packet;
        match check_inspection(p, guards) {
            Ok(()) => {},
            Err(e) => return Err(e),
        }
        let tasks: &Vec<TaskPacket> = &p.view.plan.packet.tasks;
        let keys: Vec<String> = ids_of(tasks);
        let order: Vec<usize> = text::order_of(&keys);
        let mut out: Vec<TaskInspection> = Vec::new();
        assert(text::texts(keys@).len() == keys@.len());
        assert(task_ids(tasks@).len() == tasks@.len());
        let mut i: usize = 0;
        while i < order.len()
            invariant
                tasks == p.view.plan.packet.tasks,
                guards@.len() == tasks@.len(),
                contract_bytes@.len() == p.view.plan.metadata.contracts@.len(),
                i <= order@.len(),
                out@.len() == i,
                text::sorts(order@, task_ids(tasks@), tasks@.len() as int),
                forall|t: int|
                    0 <= t < tasks@.len() ==> store::state_of(
                        p.tasks@,
                        (#[trigger] tasks@[t]).task_id@,
                        0,
                    ) is Some && contract_at(
                        p.view.plan.metadata.contracts@,
                        tasks@[t].task_id@,
                        0,
                    ) is Some,
                forall|j: int|
                    0 <= j < i ==> shows(
                        #[trigger] out@[j],
                        *p,
                        *prepared,
                        guards@,
                        contract_bytes@,
                        order@[j] as int,
                    ),
            decreases order@.len() - i,
        {
            assert(tasks@[order@[i as int] as int].task_id@ == tasks@[order@[i as int] as int].task_id@);
            out.push(inspect(p, prepared, guards, contract_bytes, order[i]));
            i += 1;
        }
        Ok(out)
    }
}

/// A task is only ever shown as ready where its plan can still change, it is
/// itself PLANNED or READY, and each of its dependencies is VERIFIED.
pub proof fn law_ready_tasks_have_verified_dependencies(
    x: TaskInspection,
    p: StoredPlan,
    prepared: PlannerPacket,
    guards: Seq<TaskGuard>,
    contract_bytes: Seq<usize>,
    t: int,
    d: int,
)
    requires
        shows(x, p, prepared, guards, contract_bytes, t),
        x.structurally_ready,
        0 <= d < p.view.plan.packet.tasks@[t].dependencies@.len(),
    ensures
        mutable(p.view.state),
        x.state == TaskState::Planned || x.state == TaskState::Ready,
        store::state_of(p.tasks@, p.view.plan.packet.tasks@[t].dependencies@[d]@, 0) == Some(
            TaskState::Verified,
        ),
{
    let all = text::texts(p.view.plan.packet.tasks@[t].dependencies@);
    assert(text::texts(x.reasons@).len() == 0);
    assert(waiting(all, p.tasks@, 0).len() == 0);
    lemma_nothing_waits(all, p.tasks@, 0, d);
    assert(all[d] == p.view.plan.packet.tasks@[t].dependencies@[d]@);
}

proof fn lemma_nothing_waits(dependencies: Seq<Seq<char>>, states: Seq<TaskStatus>, from: int, d: int)
    requires
        0 <= from <= d < dependencies.len(),
        waiting(dependencies, states, from).len() == 0,
    ensures
        store::state_of(states, dependencies[d], 0) == Some(TaskState::Verified),
    decreases d - from,
{
    if from < d {
        lemma_nothing_waits(dependencies, states, from + 1, d);
    }
}

// ---------------------------------------------------------------------------
// Listing
// ---------------------------------------------------------------------------

/// Whether a plan is listed: all of them, or the plans of one workspace that
/// can still change.
pub open spec fn listed(p: StoredPlan, workspace: Seq<char>, all: bool) -> bool {
    all || (p.workspace_id@ == workspace && mutable(p.view.state))
}

/// Whether one plan is listed before another: the one that changed last first,
/// and by identifier where both changed at once.
pub open spec fn listed_before(a: StoredPlan, b: StoredPlan) -> bool {
    a.view.updated_at_ms > b.view.updated_at_ms || (a.view.updated_at_ms == b.view.updated_at_ms
        && text::before(a.view.plan.packet.plan_id@, b.view.plan.packet.plan_id@))
}

fn comes_before(a: &StoredPlan, b: &StoredPlan) -> (r: bool)
    ensures
        r == listed_before(*a, *b),
{
    a.view.updated_at_ms > b.view.updated_at_ms || (a.view.updated_at_ms == b.view.updated_at_ms
        && text::less(a.view.plan.packet.plan_id.as_str(), b.view.plan.packet.plan_id.as_str()))
}

/// Whether a summary shows a stored plan.
pub open spec fn summarises(s: PlanSummary, p: StoredPlan) -> bool {
    &&& s.plan_id@ == p.view.plan.packet.plan_id@
    &&& s.state == p.view.state
    &&& s.workspace_id@ == p.workspace_id@
    &&& s.objective@ == p.view.plan.packet.objective@
}

/// Whether an order holds the first listed plans: no plan twice, none that is
/// listed after one that is left out, and only as many as the limit lets
/// through.
pub open spec fn lists(
    order: Seq<usize>,
    plans: Seq<StoredPlan>,
    workspace: Seq<char>,
    all: bool,
    limit: int,
) -> bool {
    &&& order.len() <= limit
    &&& forall|i: int|
        0 <= i < order.len() ==> (#[trigger] order[i]) < plans.len() && listed(
            plans[order[i] as int],
            workspace,
            all,
        )
    &&& forall|i: int, j: int|
        0 <= i < j < order.len() ==> (#[trigger] order[i]) != (#[trigger] order[j])
            && !listed_before(plans[order[j] as int], plans[order[i] as int])
    &&& forall|p: int|
        0 <= p < plans.len() && listed(#[trigger] plans[p], workspace, all) && !order.contains(
            p as usize,
        ) ==> order.len() == limit && forall|i: int|
            0 <= i < order.len() ==> !listed_before(plans[p], plans[(#[trigger] order[i]) as int])
}

proof fn lemma_listing_splits(a: StoredPlan, b: StoredPlan, c: StoredPlan)
    requires
        listed_before(a, c),
    ensures
        listed_before(a, b) || listed_before(b, c),
        !listed_before(c, a),
{
    let (x, y, z) = (
        a.view.plan.packet.plan_id@,
        b.view.plan.packet.plan_id@,
        c.view.plan.packet.plan_id@,
    );
    text::lemma_before_total(x, y);
    text::lemma_before_total(y, z);
    text::lemma_before_total(x, z);
    if text::before(y, x) && text::before(x, z) {
        text::lemma_before_transitive(y, x, z);
    }
}

pub const LIST_RULE: &'static str = "plan list limit must be 1–100";

impl Store {
    /// The first plans of the list, at most `limit` of them.
    pub fn execution_plans(&self, workspace: &WorkspaceId, all: bool, limit: usize) -> (r: Result<
        Vec<PlanSummary>,
        Error,
    >)
        ensures
            crate::error::settles(
                r,
                if 1 <= limit <= 100 {
                    None
                } else {
                    Some(LIST_RULE@)
                },
            ),
            r matches Ok(v) ==> exists|order: Seq<usize>|
                {
                    &&& #[trigger] lists(order, self.plans@, workspace@, all, limit as int)
                    &&& v@.len() == order.len()
                    &&& forall|i: int|
                        0 <= i < v@.len() ==> summarises(
                            #[trigger] v@[i],
                            self.plans@[order[i] as int],
                        )
                },
    {
        if !(1 <= limit && limit <= 100) {
            return invalid(LIST_RULE);
        }
        let mut order: Vec<usize> = Vec::new();
        let mut n: usize = 0;
        while n < self.plans.len()
            invariant
                n <= self.plans@.len(),
                1 <= limit <= 100,
                order@.len() <= limit,
                lists(order@, self.plans@.take(n as int), workspace@, all, limit as int),
            decreases self.plans@.len() - n,
        {
            let ghost so_far = order@;
            let ghost known = self.plans@.take(n as int);
            let ghost next = self.plans@.take(n + 1);
            assert(next =~= known.push(self.plans@[n as int]));
            let shown: bool = all || (text::same(
                self.plans[n].workspace_id.as_str(),
                workspace.as_str(),
            ) && (match self.plans[n].view.state {
                PlanState::Validated | PlanState::Active => true,
                _ => false,
            }));
            if shown {
                let mut at: usize = order.len();
                while at > 0 && comes_before(&self.plans[n], &self.plans[order[at - 1]])
                    invariant
                        n < self.plans@.len(),
                        order@ == so_far,
                        known == self.plans@.take(n as int),
                        lists(so_far, known, workspace@, all, limit as int),
                        at <= order@.len(),
                        forall|i: int|
                            at <= i < order@.len() ==> listed_before(
                                self.plans@[n as int],
                                self.plans@[(#[trigger] order@[i]) as int],
                            ),
                    decreases at,
                {
                    assert(known[order@[at - 1] as int] == self.plans@[order@[at - 1] as int]);
                    at -= 1;
                }
                proof {
                    if at > 0 {
                        assert(known[so_far[at - 1] as int] == self.plans@[so_far[at - 1] as int]);
                    }
                }
                order.insert(at, n);
                let ghost full = order@;
                if order.len() > limit {
                    order.pop();
                }
                proof {
                    lemma_listing_grows(
                        so_far,
                        self.plans@,
                        n,
                        workspace@,
                        all,
                        limit as int,
                        at as int,
                    );
                    assert(full =~= so_far.insert(at as int, n));
                    assert(order@ =~= grown(so_far, n, at as int, limit as int));
                }
            } else {
                proof {
                    lemma_listing_skips(so_far, self.plans@, n, workspace@, all, limit as int);
                }
            }
            n += 1;
        }
        assert(self.plans@.take(n as int) =~= self.plans@);
        let mut out: Vec<PlanSummary> = Vec::new();
        let mut i: usize = 0;
        while i < order.len()
            invariant
                i <= order@.len(),
                lists(order@, self.plans@, workspace@, all, limit as int),
                out@.len() == i,
                forall|j: int|
                    0 <= j < i ==> summarises(#[trigger] out@[j], self.plans@[order@[j] as int]),
            decreases order@.len() - i,
        {
            let p: &StoredPlan = &self.plans[order[i]];
            out.push(
                PlanSummary {
                    plan_id: p.view.plan.packet.plan_id.clone(),
                    state: p.view.state,
                    workspace_id: p.workspace_id.clone().into_string(),
                    objective: p.view.plan.packet.objective.clone(),
                },
            );
            i += 1;
        }
        Ok(out)
    }
}

/// An order with one more plan at a place, cut at the limit.
spec fn grown(order: Seq<usize>, n: usize, at: int, limit: int) -> Seq<usize> {
    let full = order.insert(at, n);
    if full.len() > limit {
        full.drop_last()
    } else {
        full
    }
}

proof fn lemma_listing_skips(
    order: Seq<usize>,
    plans: Seq<StoredPlan>,
    n: usize,
    workspace: Seq<char>,
    all: bool,
    limit: int,
)
    requires
        n < plans.len() <= usize::MAX,
        lists(order, plans.take(n as int), workspace, all, limit),
        !listed(plans[n as int], workspace, all),
    ensures
        lists(order, plans.take(n + 1), workspace, all, limit),
{
    let known = plans.take(n as int);
    let next = plans.take(n + 1);
    assert(next =~= known.push(plans[n as int]));
    assert forall|i: int| 0 <= i < order.len() implies next[(#[trigger] order[i]) as int]
        == known[order[i] as int] by {}
    assert forall|p: int|
        0 <= p < next.len() && listed(#[trigger] next[p], workspace, all) && !order.contains(
            p as usize,
        ) implies order.len() == limit && forall|i: int|
        0 <= i < order.len() ==> !listed_before(next[p], next[(#[trigger] order[i]) as int]) by {
        assert(known[p] == next[p]);
    }
}

proof fn lemma_listing_grows(
    order: Seq<usize>,
    plans: Seq<StoredPlan>,
    n: usize,
    workspace: Seq<char>,
    all: bool,
    limit: int,
    at: int,
)
    requires
        n < plans.len() <= usize::MAX,
        1 <= limit,
        lists(order, plans.take(n as int), workspace, all, limit),
        listed(plans[n as int], workspace, all),
        0 <= at <= order.len(),
        forall|i: int|
            at <= i < order.len() ==> listed_before(
                plans[n as int],
                plans[(#[trigger] order[i]) as int],
            ),
        at > 0 ==> !listed_before(plans[n as int], plans[order[at - 1] as int]),
    ensures
        lists(grown(order, n, at, limit), plans.take(n + 1), workspace, all, limit),
{
    let known = plans.take(n as int);
    let next = plans.take(n + 1);
    let full = order.insert(at, n);
    let cut = grown(order, n, at, limit);
    assert(next =~= known.push(plans[n as int]));
    assert forall|i: int| 0 <= i < order.len() implies next[(#[trigger] order[i]) as int]
        == plans[order[i] as int] && known[order[i] as int] == plans[order[i] as int] by {}
    // Nothing before the place is listed after the new plan.
    assert forall|i: int| 0 <= i < at implies !listed_before(
        plans[n as int],
        plans[(#[trigger] order[i]) as int],
    ) by {
        if i < at - 1 {
            assert(!listed_before(known[order[at - 1] as int], known[order[i] as int]));
            if listed_before(plans[n as int], plans[order[i] as int]) {
                lemma_listing_splits(
                    plans[n as int],
                    plans[order[at - 1] as int],
                    plans[order[i] as int],
                );
            }
        }
    }
    assert forall|i: int| 0 <= i < full.len() implies (#[trigger] full[i]) == (if i < at {
        order[i]
    } else if i == at {
        n
    } else {
        order[i - 1]
    }) by {}
    assert forall|i: int, j: int| 0 <= i < j < full.len() implies (#[trigger] full[i]) != (
    #[trigger] full[j]) && !listed_before(next[full[j] as int], next[full[i] as int]) by {
        if i < at && j < at {
            assert(order[i] != order[j]);
        } else if i < at && j == at {
            assert(order[i] < n);
        } else if i < at {
            assert(order[i] != order[j - 1]);
        } else if i == at {
            assert(order[j - 1] < n);
            lemma_listing_splits(
                plans[n as int],
                plans[n as int],
                plans[order[j - 1] as int],
            );
        } else {
            assert(order[i - 1] != order[j - 1]);
        }
    }
    assert forall|p: int|
        0 <= p < next.len() && listed(#[trigger] next[p], workspace, all) && !cut.contains(
            p as usize,
        ) implies cut.len() == limit && forall|i: int|
        0 <= i < cut.len() ==> !listed_before(next[p], next[(#[trigger] cut[i]) as int]) by {
        if full.contains(p as usize) {
            let q = choose|q: int| 0 <= q < full.len() && full[q] == p as usize;
            assert(q == full.len() - 1) by {
                if q < cut.len() {
                    assert(cut[q] == p as usize);
                }
            }
            assert forall|i: int| 0 <= i < cut.len() implies !listed_before(
                next[p],
                next[(#[trigger] cut[i]) as int],
            ) by {
                assert(cut[i] == full[i]);
                assert(full[i] != full[q]);
            }
        } else {
            assert(p != n) by {
                if p == n {
                    assert(full[at] == p as usize);
                }
            }
            assert(!order.contains(p as usize)) by {
                if order.contains(p as usize) {
                    let q = choose|q: int| 0 <= q < order.len() && order[q] == p as usize;
                    if q < at {
                        assert(full[q] == p as usize);
                    } else {
                        assert(full[q + 1] == p as usize);
                    }
                }
            }
            assert(known[p] == next[p]);
            assert(order.len() == limit);
            assert forall|i: int| 0 <= i < cut.len() implies !listed_before(
                next[p],
                next[(#[trigger] cut[i]) as int],
            ) by {
                assert(cut[i] == full[i]);
                if i < at {
                    assert(!listed_before(known[p], known[order[i] as int]));
                } else if i == at {
                    // The plan that is cut off came before `p` and after `n`.
                    assert(at < order.len());
                    assert(!listed_before(known[p], known[order[at] as int]));
                    assert(listed_before(plans[n as int], plans[order[at] as int]));
                    if listed_before(plans[p], plans[n as int]) {
                        lemma_listing_transitive(
                            plans[p],
                            plans[n as int],
                            plans[order[at] as int],
                        );
                    }
                } else {
                    assert(!listed_before(known[p], known[order[i - 1] as int]));
                }
            }
        }
    }
    assert forall|i: int| 0 <= i < cut.len() implies (#[trigger] cut[i]) < next.len() && listed(
        next[cut[i] as int],
        workspace,
        all,
    ) by {
        assert(cut[i] == full[i]);
        if i < at {
            assert(listed(known[order[i] as int], workspace, all));
        } else if i > at {
            assert(listed(known[order[i - 1] as int], workspace, all));
        }
    }
    assert forall|i: int, j: int| 0 <= i < j < cut.len() implies (#[trigger] cut[i]) != (
    #[trigger] cut[j]) && !listed_before(next[cut[j] as int], next[cut[i] as int]) by {
        assert(cut[i] == full[i] && cut[j] == full[j]);
    }
}

proof fn lemma_listing_transitive(a: StoredPlan, b: StoredPlan, c: StoredPlan)
    requires
        listed_before(a, b),
        listed_before(b, c),
    ensures
        listed_before(a, c),
{
    let (x, y, z) = (
        a.view.plan.packet.plan_id@,
        b.view.plan.packet.plan_id@,
        c.view.plan.packet.plan_id@,
    );
    if text::before(x, y) && text::before(y, z) {
        text::lemma_before_transitive(x, y, z);
    }
}

proof fn lemma_plan_appended(
    before: Seq<StoredPlan>,
    after: Seq<StoredPlan>,
    workspace: Seq<char>,
    id: Seq<char>,
    i: int,
)
    requires
        0 <= i <= before.len() <= after.len(),
        after.take(before.len() as int) == before,
    ensures
        store::plan_at(before, workspace, id, i) is Some ==> store::plan_at(
            after,
            workspace,
            id,
            i,
        ) == store::plan_at(before, workspace, id, i),
        store::plan_at(before, workspace, id, i) is None ==> store::plan_at(
            after,
            workspace,
            id,
            i,
        ) == store::plan_at(after, workspace, id, before.len() as int),
    decreases before.len() - i,
{
    if i < before.len() {
        assert(after.take(before.len() as int)[i] == after[i]);
        lemma_plan_appended(before, after, workspace, id, i + 1);
    }
}

proof fn lemma_plan_unknown(plans: Seq<StoredPlan>, workspace: Seq<char>, id: Seq<char>, i: int)
    requires
        0 <= i,
        !plan_known(plans, id),
    ensures
        store::plan_at(plans, workspace, id, i) is None,
    decreases plans.len() - i,
{
    if i < plans.len() {
        assert(plans[i].view.plan.packet.plan_id@ != id);
        lemma_plan_unknown(plans, workspace, id, i + 1);
    }
}

/// A plan that was imported is what is read back under its identity, from its own
/// workspace alone; and a plan that could be read before reads as it did.
/// `Store::import_execution_plan` leads from `before` to `after` so, and
/// `Store::execution_plan` reads by `plan_at`.
pub proof fn law_an_imported_plan_is_read_back(
    before: Seq<StoredPlan>,
    after: Seq<StoredPlan>,
    workspace: Seq<char>,
    given: ExecutionPlan,
    other: Seq<char>,
    another_id: Seq<char>,
)
    requires
        !plan_known(before, given.packet.plan_id@),
        after.len() == before.len() + 1,
        after.take(before.len() as int) == before,
        after.last().workspace_id@ == workspace,
        after.last().view.plan == given,
    ensures
        store::plan_at(after, workspace, given.packet.plan_id@, 0) == Some(after.len() - 1),
        after[after.len() - 1].view.plan == given,
        other != workspace ==> store::plan_at(after, other, given.packet.plan_id@, 0) is None,
        store::plan_at(before, other, another_id, 0) matches Some(k) ==> store::plan_at(
            after,
            other,
            another_id,
            0,
        ) == Some(k) && 0 <= k < before.len() && after[k] == before[k],
{
    let id = given.packet.plan_id@;
    let n = before.len() as int;
    lemma_plan_unknown(before, workspace, id, 0);
    lemma_plan_unknown(before, other, id, 0);
    lemma_plan_appended(before, after, workspace, id, 0);
    lemma_plan_appended(before, after, other, id, 0);
    lemma_plan_appended(before, after, other, another_id, 0);
    assert(after[n] == after.last());
    assert(store::plan_at(after, other, id, n + 1) is None);
    if let Some(k) = store::plan_at(before, other, another_id, 0) {
        lemma_plan_listed(before, other, another_id, 0);
        assert(after.take(n)[k] == after[k]);
    }
}

proof fn lemma_plan_listed(plans: Seq<StoredPlan>, workspace: Seq<char>, id: Seq<char>, i: int)
    requires
        0 <= i,
    ensures
        store::plan_at(plans, workspace, id, i) matches Some(k) ==> i <= k < plans.len(),
    decreases plans.len() - i,
{
    if i < plans.len() {
        lemma_plan_listed(plans, workspace, id, i + 1);
    }
}

} // verus!
