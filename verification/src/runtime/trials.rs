//! How experiments are found, stopped, started again and judged.
use crate::planning::model::NamedCommand;
use crate::protocol;
use crate::runtime::experiment;
use crate::runtime::experiment::{
    ExperimentAttempt, ExperimentRun, ExperimentState, ProcessOutput,
};
use crate::store::StoredExperiment;
use vstd::prelude::*;

verus! {

/// Whether an experiment is the one of a workspace that has a name.
pub open spec fn is_experiment(e: StoredExperiment, workspace: Seq<char>, id: Seq<char>) -> bool {
    e.workspace_id@ == workspace && e.run.experiment_id@ == id
}

/// An experiment is found where the workspace has one of that name, and the first is.
pub proof fn law_experiments_are_found_by_name(
    all: Seq<StoredExperiment>,
    workspace: Seq<char>,
    id: Seq<char>,
    i: int,
)
    requires
        0 <= i,
    ensures
        match experiment::experiment_at(all, workspace, id, i) {
            Some(k) => i <= k < all.len() && is_experiment(all[k], workspace, id) && forall|j: int|
                i <= j < k ==> !is_experiment(#[trigger] all[j], workspace, id),
            None => forall|j: int|
                i <= j < all.len() ==> !is_experiment(#[trigger] all[j], workspace, id),
        },
    decreases all.len() - i,
{
    if i < all.len() {
        law_experiments_are_found_by_name(all, workspace, id, i + 1);
    }
}

/// A name is taken where some experiment of any workspace has it.
pub proof fn law_experiment_names_are_taken_once(all: Seq<StoredExperiment>, id: Seq<char>, i: int)
    requires
        0 <= i,
    ensures
        match experiment::recorded_at(all, id, i) {
            Some(k) => i <= k < all.len() && all[k].run.experiment_id@ == id,
            None => forall|j: int|
                i <= j < all.len() ==> (#[trigger] all[j]).run.experiment_id@ != id,
        },
    decreases all.len() - i,
{
    if i < all.len() {
        law_experiment_names_are_taken_once(all, id, i + 1);
    }
}

/// An experiment is cancelled exactly where it runs.
pub proof fn law_only_running_experiments_are_cancelled(
    all: Seq<StoredExperiment>,
    workspace: Seq<char>,
    id: Seq<char>,
    k: int,
)
    requires
        0 <= k < all.len(),
        is_experiment(all[k], workspace, id),
        forall|j: int| 0 <= j < k ==> !is_experiment(#[trigger] all[j], workspace, id),
    ensures
        experiment::cancel_refusal(all, workspace, id) is None <==> all[k].run.state
            == ExperimentState::Running,
{
    law_experiments_are_found_by_name(all, workspace, id, 0);
}

/// An attempt was cancelled where that was done to it and it says so without having
/// succeeded; it succeeded where it exited with zero and nothing failed; and it failed
/// otherwise.
pub proof fn law_attempts_are_judged_by_their_exit(applied: bool, output: ProcessOutput)
    ensures
        ({
            let said = output.failure is Some && output.failure->0@ == "cancelled"@;
            let state = experiment::outcome(applied, output);
            &&& state == ExperimentState::Cancelled <==> applied && said && output.exit != Some(
                0i32,
            )
            &&& state == ExperimentState::Succeeded <==> output.exit == Some(0i32)
                && output.failure is None
            &&& state == ExperimentState::Failed <==> !(state == ExperimentState::Cancelled)
                && !(state == ExperimentState::Succeeded)
        }),
{
}

/// An experiment is started again exactly where it does not run any more, and the project
/// command that it was made from, if any, is still the same.
pub proof fn law_experiments_are_started_again_unchanged(
    run: ExperimentRun,
    commands: Seq<NamedCommand>,
    live: bool,
    k: int,
)
    requires
        run.project_command_key is Some ==> {
            &&& 0 <= k < commands.len()
            &&& commands[k].name@ == run.project_command_key->0@
            &&& forall|j: int|
                0 <= j < k ==> (#[trigger] commands[j]).name@ != run.project_command_key->0@
        },
    ensures
        experiment::restart_refusal(run, commands, live) is None <==> {
            &&& !(run.state == ExperimentState::Running && live)
            &&& run.project_command_key is Some ==> protocol::same_command(
                commands[k].command,
                run.command,
            )
        },
{
    if run.project_command_key is Some {
        lemma_command_at(commands, run.project_command_key->0@, 0, k);
    }
}

proof fn lemma_command_at(list: Seq<NamedCommand>, name: Seq<char>, i: int, k: int)
    requires
        0 <= i <= k < list.len(),
        list[k].name@ == name,
        forall|j: int| i <= j < k ==> (#[trigger] list[j]).name@ != name,
    ensures
        crate::runtime::issue::command_at(list, name, i) == Some(k),
    decreases k - i,
{
    if i < k {
        assert(list[i].name@ != name);
        lemma_command_at(list, name, i + 1, k);
    }
}

/// An attempt that had ended keeps its end; one that had not is interrupted, and says why.
pub proof fn law_ended_attempts_keep_their_end(a: ExperimentAttempt, after: ExperimentAttempt)
    requires
        experiment::given_up(a, after),
    ensures
        a.state == ExperimentState::Succeeded || a.state == ExperimentState::Failed || a.state
            == ExperimentState::Cancelled || a.state == ExperimentState::Interrupted ==> after == a,
        a.state == ExperimentState::Running ==> {
            &&& after.state == ExperimentState::Interrupted
            &&& after.failure is Some
            &&& a.failure is Some ==> after.failure->0@ == a.failure->0@
            &&& after.attempt == a.attempt
            &&& after.exit_status == a.exit_status
        },
{
}

} // verus!
