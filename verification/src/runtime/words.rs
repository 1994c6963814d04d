//! What the words after a runtime command mean, and what a summary shows.
use crate::runtime::cli;
use crate::runtime::cli::{Candidate, OverrideView};
use crate::runtime::experiment_cli;
use crate::runtime::experiment_cli::{RunFlags, RunFlagsView};
use crate::runtime::experiment_events;
use crate::runtime::experiment_events::{ExperimentEventSummary, StoredEvent};
use crate::runtime::frames;
use crate::text;
use vstd::prelude::*;

verus! {

// ---------------------------------------------------------------------------
// Summaries
// ---------------------------------------------------------------------------
proof fn lemma_last_metric(events: Seq<StoredEvent>, id: Seq<char>, name: Seq<char>, n: int, k: int)
    requires
        0 <= k < n <= events.len(),
        events[k].event.experiment_id@ == id,
        events[k].event.event.measures(name),
        forall|m: int|
            k < m < n ==> !((#[trigger] events[m]).event.experiment_id@ == id
                && events[m].event.event.measures(name)),
    ensures
        experiment_events::last_metric(events, id, name, n) == Some(k),
    decreases n,
{
    if k < n - 1 {
        let m: int = n - 1;
        assert(!(events[m].event.experiment_id@ == id && events[m].event.event.measures(name)));
        lemma_last_metric(events, id, name, n - 1, k);
    }
}

proof fn lemma_latest(
    events: Seq<StoredEvent>,
    workspace: Seq<char>,
    id: Seq<char>,
    i: int,
    k: int,
    name: Seq<char>,
)
    requires
        0 <= i <= k < events.len(),
        frames::of_experiment(events[k], workspace, id),
        events[k].event.event.measures(name),
        experiment_events::last_metric(events, id, name, events.len() as int) == Some(k),
    ensures
        experiment_events::latest_names(events, workspace, id, i).contains(name),
    decreases k - i,
{
    let all = experiment_events::latest_names(events, workspace, id, i);
    let rest = experiment_events::latest_names(events, workspace, id, i + 1);
    if i == k {
        assert(all[0] == name);
    } else {
        lemma_latest(events, workspace, id, i + 1, k, name);
        let m = choose|m: int| 0 <= m < rest.len() && rest[m] == name;
        if all.len() == rest.len() {
            assert(all =~= rest);
        } else {
            assert(all[m + 1] == name);
        }
    }
}

/// A summary shows of every metric of an experiment the value that it had last.
pub proof fn law_summaries_show_the_latest_value(
    s: ExperimentEventSummary,
    events: Seq<StoredEvent>,
    workspace: Seq<char>,
    id: Seq<char>,
    k: int,
) -> (i: int)
    requires
        experiment_events::summarizes(s, events, workspace, id),
        0 <= k < events.len(),
        frames::of_experiment(events[k], workspace, id),
        events[k].event.event is Metric,
        forall|m: int|
            k < m < events.len() ==> !((#[trigger] events[m]).event.experiment_id@ == id
                && events[m].event.event.measures(events[k].event.event->Metric_name@)),
    ensures
        0 <= i < s.latest_metrics@.len(),
        s.latest_metrics@[i].name@ == events[k].event.event->Metric_name@,
        s.latest_metrics@[i].value == events[k].event.event->Metric_value,
{
    let name = events[k].event.event->Metric_name@;
    let names = experiment_events::latest_names(events, workspace, id, 0);
    lemma_last_metric(events, id, name, events.len() as int, k);
    lemma_latest(events, workspace, id, 0, k, name);
    text::law_texts_can_be_ordered(names);
    let shown = experiment_events::metric_names(s.latest_metrics@);
    assert(text::in_order(names).contains(name));
    assert(shown.contains(name));
    let i = choose|i: int| 0 <= i < shown.len() && shown[i] == name;
    assert(s.latest_metrics@[i].name@ == name);
    i
}

// ---------------------------------------------------------------------------
// Flags
// ---------------------------------------------------------------------------
/// Flags only ever add: arguments and variables are kept in the order they were given, and
/// the network is open where a flag says so and not otherwise.
pub proof fn law_flags_only_add(args: Seq<Seq<char>>, i: int, f: RunFlagsView)
    requires
        0 <= i,
    ensures
        experiment_cli::flags_from(args, i, f) matches Ok(g) ==> {
            &&& f.args.len() <= g.args.len() && g.args.take(f.args.len() as int) == f.args
            &&& f.env.len() <= g.env.len() && g.env.take(f.env.len() as int) == f.env
            &&& f.network ==> g.network
            &&& g.network ==> f.network || exists|j: int|
                i <= j < args.len() && #[trigger] args[j] == "--network"@
            &&& i < args.len() && args[i] == "--network"@ ==> g.network
            &&& g.args.len() - f.args.len() + g.env.len() - f.env.len() <= args.len() - i
                || i >= args.len()
        },
    decreases args.len() - i,
{
    if i >= args.len() {
        assert(f.args.take(f.args.len() as int) =~= f.args);
        assert(f.env.take(f.env.len() as int) =~= f.env);
    } else if args[i] == "--network"@ {
        law_flags_only_add(args, i + 1, RunFlagsView { network: true, ..f });
    } else if experiment_cli::takes_value(args[i]) && i + 1 < args.len() {
        let v = args[i + 1];
        law_flags_only_add(args, i + 2, RunFlagsView { program: Some(v), ..f });
        law_flags_only_add(args, i + 2, RunFlagsView { command: Some(v), ..f });
        law_flags_only_add(args, i + 2, RunFlagsView { cwd: Some(v), ..f });
        law_flags_only_add(args, i + 2, RunFlagsView { args: f.args.push(v), ..f });
        law_flags_only_add(args, i + 2, RunFlagsView { env: f.env.push(v), ..f });
        if let Some(n) = text::number(v, u64::MAX as nat) {
            law_flags_only_add(args, i + 2, RunFlagsView { timeout_ms: n, ..f });
        }
        if let Ok(g) = experiment_cli::flags_from(args, i, f) {
            assert(g.args.len() > f.args.len() ==> g.args.take((f.args.len() + 1) as int).take(
                f.args.len() as int,
            ) =~= g.args.take(f.args.len() as int));
            assert(f.args.push(v).take(f.args.len() as int) =~= f.args);
            assert(g.env.len() > f.env.len() ==> g.env.take((f.env.len() + 1) as int).take(
                f.env.len() as int,
            ) =~= g.env.take(f.env.len() as int));
            assert(f.env.push(v).take(f.env.len() as int) =~= f.env);
        }
    }
}

/// An experiment is of a program or of a project command, and not of both; a project
/// command is taken as it is.
pub proof fn law_experiments_run_one_command(f: RunFlags)
    ensures
        experiment_cli::source_refusal(f) is None <==> {
            ||| f.program is Some && f.command is None
            ||| f.command is Some && f.program is None && f.args@.len() == 0 && f.cwd is None
        },
{
}

// ---------------------------------------------------------------------------
// Overrides
// ---------------------------------------------------------------------------
proof fn lemma_words(
    args: Seq<Seq<char>>,
    i: int,
    overrides: Seq<OverrideView>,
    words: Seq<Seq<char>>,
)
    requires
        0 <= i <= args.len(),
        forall|n: int| i <= n < args.len() ==> #[trigger] args[n] != "--override"@,
    ensures
        cli::split_from(args, i, overrides, words) == Ok::<
            (Seq<OverrideView>, Seq<Seq<char>>),
            Seq<char>,
        >((overrides, words + args.skip(i))),
    decreases args.len() - i,
{
    if i < args.len() {
        lemma_words(args, i + 1, overrides, words.push(args[i]));
        assert(words.push(args[i]) + args.skip(i + 1) =~= words + args.skip(i));
    } else {
        assert(words + args.skip(i) =~= words);
    }
}

/// Words among which nothing is overridden are handed on as they are.
pub proof fn law_words_without_overrides_are_handed_on(args: Seq<Seq<char>>)
    requires
        forall|n: int| 0 <= n < args.len() ==> #[trigger] args[n] != "--override"@,
    ensures
        cli::split_from(args, 0, Seq::empty(), Seq::empty()) == Ok::<
            (Seq<OverrideView>, Seq<Seq<char>>),
            Seq<char>,
        >((Seq::empty(), args)),
{
    lemma_words(args, 0, Seq::empty(), Seq::empty());
    assert(Seq::<Seq<char>>::empty() + args.skip(0) =~= args);
}

/// Whether no two overrides are of one role.
pub open spec fn apart(all: Seq<OverrideView>) -> bool {
    forall|a: int, b: int|
        0 <= a < b < all.len() ==> (#[trigger] all[a]).role != (#[trigger] all[b]).role
}

/// Overrides are of different roles, each with its own value taken out of the words.
pub proof fn law_overrides_are_of_different_roles(
    args: Seq<Seq<char>>,
    i: int,
    overrides: Seq<OverrideView>,
    words: Seq<Seq<char>>,
)
    requires
        0 <= i <= args.len(),
        apart(overrides),
    ensures
        cli::split_from(args, i, overrides, words) matches Ok(r) ==> {
            &&& apart(r.0)
            &&& 2 * (r.0.len() - overrides.len()) + (r.1.len() - words.len()) == args.len() - i
        },
    decreases args.len() - i,
{
    if i < args.len() {
        if args[i] != "--override"@ {
            law_overrides_are_of_different_roles(args, i + 1, overrides, words.push(args[i]));
        } else if i + 1 < args.len() {
            let f = text::pieces(args[i + 1], ':');
            let one = OverrideView {
                role: f[0],
                provider: f[1],
                model: if f.len() == 3 {
                    Some(f[2])
                } else {
                    None
                },
            };
            if !cli::overridden(overrides, f[0]) {
                let more = overrides.push(one);
                assert forall|a: int, b: int| 0 <= a < b < more.len() implies (
                #[trigger] more[a]).role != (#[trigger] more[b]).role by {
                    if b == overrides.len() {
                        assert(overrides[a].role != f[0]);
                    } else {
                        assert(more[a] == overrides[a] && more[b] == overrides[b]);
                    }
                }
                law_overrides_are_of_different_roles(args, i + 2, more, words);
            }
        }
    }
}

/// The providers that are said to be missing are those whose executable is not there.
pub proof fn law_missing_providers_are_not_there(
    candidates: Seq<Candidate>,
    i: int,
    n: int,
    name: Seq<char>,
)
    requires
        0 <= i,
    ensures
        ({
            let all = cli::missing_from(candidates, i);
            &&& i <= n < candidates.len() && candidates[n].provider is Some
                && !candidates[n].executable_exists ==> all.contains(candidates[n].provider->0@)
            &&& all.contains(name) ==> exists|m: int|
                i <= m < candidates.len() && (#[trigger] candidates[m]).provider is Some
                    && !candidates[m].executable_exists && candidates[m].provider->0@ == name
        }),
    decreases candidates.len() - i,
{
    if i < candidates.len() {
        law_missing_providers_are_not_there(candidates, i + 1, n, name);
        let rest = cli::missing_from(candidates, i + 1);
        if let Some(p) = candidates[i].provider {
            if !candidates[i].executable_exists {
                text::lemma_sum_contains(seq![p@], rest, name);
                assert(seq![p@][0] == p@);
                if i <= n < candidates.len() && candidates[n].provider is Some {
                    text::lemma_sum_contains(seq![p@], rest, candidates[n].provider->0@);
                }
                if seq![p@].contains(name) {
                    assert(candidates[i].provider->0@ == name);
                }
            }
        }
    }
}

} // verus!
