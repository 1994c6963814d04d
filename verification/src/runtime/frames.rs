//! Which event frames are taken in, and which events a query gives.
use crate::planning::scope;
use crate::planning::scope::ProtectedPath;
use crate::runtime::experiment_events;
use crate::runtime::experiment_events::{
    CheckpointFile, Draft, Entry, EventFrame, ExperimentEventQuery, Places, StoredEvent, Tag,
};
use crate::text;
use vstd::prelude::*;

verus! {

/// Whether a text says something in at most so many bytes, without control characters.
pub open spec fn plain(s: Seq<char>, max: nat) -> bool {
    &&& !text::blank(s)
    &&& text::size(s) <= max
    &&& forall|n: int| 0 <= n < s.len() ==> !text::is_control(#[trigger] s[n])
}

/// A text is taken exactly where it is plain.
pub proof fn law_only_plain_text_is_taken(s: Seq<char>, name: Seq<char>, max: nat)
    ensures
        experiment_events::bounded_refusal(s, name, max) is None <==> plain(s, max),
{
}

proof fn lemma_tags(tags: Seq<Tag>, i: int)
    requires
        0 <= i,
    ensures
        experiment_events::tags_refusal(tags, i) is None <==> forall|n: int|
            i <= n < tags.len() ==> plain((#[trigger] tags[n]).key@, 64) && plain(
                tags[n].value@,
                256,
            ),
    decreases tags.len() - i,
{
    if i < tags.len() {
        lemma_tags(tags, i + 1);
        law_only_plain_text_is_taken(tags[i].key@, "metric tag key"@, 64);
        law_only_plain_text_is_taken(tags[i].value@, "metric tag value"@, 256);
        if !(plain(tags[i].key@, 64) && plain(tags[i].value@, 256)) {
            assert(experiment_events::tags_refusal(tags, i) is Some);
        }
    }
}

/// A metric is taken exactly where its name is plain, starts with a letter, a digit or an
/// underscore and holds besides only `.`, `/` and `-`, its value is finite, its unit is
/// plain and short, and it has at most sixteen tags, each plain.
pub proof fn law_only_named_finite_metrics_are_taken(
    name: Seq<char>,
    value: u64,
    unit: Option<String>,
    tags: Seq<Tag>,
)
    ensures
        experiment_events::metric_refusal(name, value, unit, tags) is None <==> {
            &&& plain(name, 128)
            &&& name.len() > 0
            &&& text::is_alphanumeric(name[0]) || name[0] == '_'
            &&& forall|n: int|
                0 <= n < name.len() ==> text::is_alphanumeric(#[trigger] name[n]) || name[n] == '_'
                    || name[n] == '.' || name[n] == '/' || name[n] == '-'
            &&& (value / 4_503_599_627_370_496) % 2_048 != 2_047
            &&& unit is Some ==> plain(unit->0@, 32)
            &&& tags.len() <= 16
            &&& forall|n: int|
                0 <= n < tags.len() ==> plain((#[trigger] tags[n]).key@, 64) && plain(
                    tags[n].value@,
                    256,
                )
        },
{
    lemma_tags(tags, 0);
    let ok = forall|i: int|
        0 <= i < name.len() ==> experiment_events::is_name_char(#[trigger] name[i]);
    if ok {
        assert forall|n: int| 0 <= n < name.len() implies text::is_alphanumeric(#[trigger] name[n])
            || name[n] == '_' || name[n] == '.' || name[n] == '/' || name[n] == '-' by {
            assert(experiment_events::is_name_char(name[n]));
        }
    }
}

proof fn lemma_protected(rules: Seq<ProtectedPath>, path: Seq<char>, i: int)
    requires
        0 <= i,
    ensures
        experiment_events::protected_refusal(rules, path, i) is None <==> forall|n: int|
            i <= n < rules.len() ==> !scope::below(path, (#[trigger] rules[n]).path@),
    decreases rules.len() - i,
{
    if i < rules.len() {
        lemma_protected(rules, path, i + 1);
        if scope::below(path, rules[i].path@) {
            assert(experiment_events::protected_refusal(rules, path, i) is Some);
        }
    }
}

/// A checkpoint is taken exactly where its name is plain, its path is short and well
/// formed, no component of it is administrative, and it lies under no protected path.
pub proof fn law_checkpoints_are_taken_outside_protected_paths(
    name: Seq<char>,
    path: Seq<char>,
    path_rule: Option<String>,
    rules: Seq<ProtectedPath>,
)
    ensures
        experiment_events::checkpoint_refusal(name, path, path_rule, rules) is None <==> {
            &&& plain(name, 128)
            &&& text::size(path) <= 1024
            &&& path_rule is None
            &&& !text::pieces(path, '/').contains(".git"@)
            &&& !text::pieces(path, '/').contains(".agentctl"@)
            &&& forall|n: int|
                0 <= n < rules.len() ==> !scope::below(path, (#[trigger] rules[n]).path@)
        },
{
    lemma_protected(rules, path, 0);
}

/// Whether one path leads into another: its first components are those of the other.
pub open spec fn leads_into(path: Seq<Seq<char>>, directory: Seq<Seq<char>>) -> bool {
    directory.len() <= path.len() && path.take(directory.len() as int) == directory
}

proof fn lemma_resolves(
    rules: Seq<ProtectedPath>,
    protected: Seq<Option<Vec<String>>>,
    path: Seq<Seq<char>>,
    i: int,
    n: int,
)
    requires
        0 <= i <= n < rules.len(),
        experiment_events::resolves_refusal(rules, protected, path, i) is None,
        protected[n] is Some,
    ensures
        !leads_into(path, text::texts(protected[n]->0@)),
    decreases n - i,
{
    if i < n {
        lemma_resolves(rules, protected, path, i + 1, n);
    }
}

/// A checkpoint stays in the workspace: where its path really leads is below the root, in
/// no administrative directory, and in nothing that is protected.
pub proof fn law_checkpoints_stay_in_the_workspace(
    places: Places,
    rules: Seq<ProtectedPath>,
    d: int,
    n: int,
)
    requires
        experiment_events::place_refusal(places, rules) is None,
    ensures
        ({
            let path = text::texts(places.canonical@);
            &&& leads_into(path, text::texts(places.root@))
            &&& 0 <= d < places.administrative@.len() ==> !leads_into(
                path,
                text::texts(places.administrative@[d]@),
            )
            &&& 0 <= n < rules.len() && places.protected@[n] is Some ==> !leads_into(
                path,
                text::texts(places.protected@[n]->0@),
            )
        }),
{
    let path = text::texts(places.canonical@);
    if 0 <= n < rules.len() && places.protected@[n] is Some {
        lemma_resolves(rules, places.protected@, path, 0, n);
    }
    if 0 <= d < places.administrative@.len() {
        assert(!crate::runtime::worktree::inside(
            path,
            text::texts(places.administrative@[d]@),
        ));
    }
}

/// A frame that a process reports is taken as it was reported; what only the controller
/// may say is refused.
pub proof fn law_frames_are_taken_as_reported(
    frame: EventFrame,
    file: Result<CheckpointFile, String>,
)
    ensures
        experiment_events::frame_refusal(frame, file) is None ==> {
            &&& frame matches EventFrame::Health { kind, .. } ==> !(kind is IngestionError)
                && !(kind is NonfiniteMetric)
            &&& frame is Checkpoint ==> file is Ok
            &&& frame matches EventFrame::Metric { name, value, unit, tags, .. }
                ==> experiment_events::metric_refusal(name@, value, unit, tags@) is None
            &&& plain(frame.source()@, 128)
        },
        frame matches EventFrame::Metric { name, value, .. } ==> {
            let e = experiment_events::reported(frame, file);
            &&& e is Metric
            &&& e->Metric_name == name
            &&& e->value == value
        },
        frame is Checkpoint ==> experiment_events::reported(frame, file) is Checkpoint,
        frame is Health ==> experiment_events::reported(frame, file) is Health,
        frame is Status ==> experiment_events::reported(frame, file) is ProcessStatus,
{
}

// ---------------------------------------------------------------------------
// Recording
// ---------------------------------------------------------------------------
/// Whether an entry is that of an experiment, an attempt, a channel and a sequence.
pub open spec fn is_entry(e: Entry, other: Entry) -> bool {
    &&& e.experiment == other.experiment
    &&& e.attempt == other.attempt
    &&& e.channel == other.channel
    &&& e.sequence == other.sequence
}

proof fn lemma_entry_at(all: Seq<Entry>, e: Entry, i: int)
    requires
        0 <= i,
    ensures
        match experiment_events::entry_at(all, e, i) {
            Some(k) => i <= k < all.len() && is_entry(all[k], e),
            None => forall|j: int| i <= j < all.len() ==> !is_entry(#[trigger] all[j], e),
        },
    decreases all.len() - i,
{
    if i < all.len() {
        lemma_entry_at(all, e, i + 1);
    }
}

/// A draft is recorded unless an event of its experiment, attempt, channel and sequence is
/// known already, or comes before it among the drafts: nothing that is new is lost.
pub proof fn law_new_drafts_are_recorded(
    known: Seq<Entry>,
    drafts: Seq<Draft>,
    id: Seq<char>,
    attempt: u32,
    i: int,
    n: int,
)
    requires
        0 <= i <= n < drafts.len(),
    ensures
        ({
            let at = experiment_events::taken(known, drafts, id, attempt, i).0;
            let e = experiment_events::entry_for(drafts[n], id, attempt);
            ||| at.contains(n)
            ||| exists|k: int| 0 <= k < known.len() && is_entry(#[trigger] known[k], e)
            ||| exists|m: int|
                i <= m < n && is_entry(
                    #[trigger] experiment_events::entry_for(drafts[m], id, attempt),
                    e,
                )
        }),
    decreases n - i,
{
    let at = experiment_events::taken(known, drafts, id, attempt, i).0;
    let e = experiment_events::entry_for(drafts[n], id, attempt);
    let own = experiment_events::entry_for(drafts[i], id, attempt);
    lemma_entry_at(known, own, 0);
    match experiment_events::entry_at(known, own, 0) {
        None => {
            let rest = experiment_events::taken(known.push(own), drafts, id, attempt, i + 1).0;
            assert(at == seq![i] + rest);
            assert(at[0] == i);
            if i < n {
                law_new_drafts_are_recorded(known.push(own), drafts, id, attempt, i + 1, n);
                if rest.contains(n) {
                    let m = choose|m: int| 0 <= m < rest.len() && rest[m] == n;
                    assert(at[m + 1] == n);
                } else if exists|k: int|
                    0 <= k < known.push(own).len() && is_entry(#[trigger] known.push(own)[k], e) {
                    let k = choose|k: int|
                        0 <= k < known.push(own).len() && is_entry(
                            #[trigger] known.push(own)[k],
                            e,
                        );
                    if k < known.len() {
                        assert(is_entry(known[k], e));
                    } else {
                        assert(is_entry(
                            experiment_events::entry_for(drafts[i], id, attempt),
                            e,
                        ));
                    }
                }
            }
        },
        Some(k) => {
            assert(is_entry(known[k], own));
            if i < n {
                law_new_drafts_are_recorded(known, drafts, id, attempt, i + 1, n);
            }
        },
    }
}

// ---------------------------------------------------------------------------
// Querying
// ---------------------------------------------------------------------------
/// Whether a query asks for an event: of its attempt, its kind and its metric, where it
/// names them.
pub open spec fn wants(query: ExperimentEventQuery, e: StoredEvent) -> bool {
    &&& query.attempt is Some ==> query.attempt->0 == e.event.attempt
    &&& query.event_type is Some ==> query.event_type->0@ == e.event.event.kind_name()
    &&& query.metric_name is Some ==> e.event.event is Metric && e.event.event->Metric_name@
        == query.metric_name->0@
}

/// The events that match a query are those of the experiment in the workspace that it asks
/// for, in the order of arrival.
pub proof fn law_queries_give_what_they_ask_for(
    events: Seq<StoredEvent>,
    workspace: Seq<char>,
    id: Seq<char>,
    query: ExperimentEventQuery,
    i: int,
    n: int,
)
    requires
        0 <= i,
    ensures
        ({
            let all = experiment_events::matching(events, workspace, id, query, i);
            &&& all.contains(n) <==> {
                &&& i <= n < events.len()
                &&& events[n].event.workspace_id@ == workspace
                &&& events[n].event.experiment_id@ == id
                &&& wants(query, events[n])
            }
            &&& forall|a: int| 0 <= a < all.len() ==> i <= #[trigger] all[a]
            &&& forall|a: int, b: int| 0 <= a < b < all.len() ==> all[a] < all[b]
        }),
    decreases events.len() - i,
{
    if i < events.len() {
        law_queries_give_what_they_ask_for(events, workspace, id, query, i + 1, n);
        let all = experiment_events::matching(events, workspace, id, query, i);
        let rest = experiment_events::matching(events, workspace, id, query, i + 1);
        if all.len() != rest.len() {
            assert(all[0] == i);
            if rest.contains(n) {
                let m = choose|m: int| 0 <= m < rest.len() && rest[m] == n;
                assert(all[m + 1] == n);
            }
            if all.contains(n) && n != i {
                let m = choose|m: int| 0 <= m < all.len() && all[m] == n;
                assert(rest[m - 1] == n);
            }
            assert forall|a: int, b: int| 0 <= a < b < all.len() implies all[a] < all[b] by {
                assert(all[b] == rest[b - 1]);
                if a > 0 {
                    assert(all[a] == rest[a - 1]);
                }
            }
        } else {
            assert(all =~= rest);
        }
    }
}

/// A query gives the last of what matches, as many as it asks for, or a thousand where it
/// does not say; and it may ask for ten thousand at most.
pub proof fn law_queries_give_the_newest(all: Seq<int>, query: ExperimentEventQuery, n: int)
    ensures
        ({
            let limit = experiment_events::query_limit(query);
            let out = experiment_events::newest(all, limit);
            &&& query.limit == 0 ==> limit == 1000
            &&& query.limit != 0 ==> limit == query.limit
            &&& experiment_events::query_refusal(query) is None ==> limit <= 10_000
                && query.attempt != Some(0u32)
            &&& out.len() <= limit
            &&& all.len() <= limit ==> out == all
            &&& all.len() > limit ==> out.len() == limit
            &&& 0 <= n < out.len() ==> out[n] == all[all.len() - out.len() + n]
        }),
{
}

// ---------------------------------------------------------------------------
// Summaries
// ---------------------------------------------------------------------------
/// Whether an event is one of an experiment in a workspace.
pub open spec fn of_experiment(e: StoredEvent, workspace: Seq<char>, id: Seq<char>) -> bool {
    e.event.workspace_id@ == workspace && e.event.experiment_id@ == id
}

/// What is counted of an experiment are its own events, and of those the rejected frames
/// are counted as errors.
pub proof fn law_events_are_counted_by_experiment(
    events: Seq<StoredEvent>,
    workspace: Seq<char>,
    id: Seq<char>,
    n: int,
)
    requires
        0 < n <= events.len(),
    ensures
        ({
            let own = of_experiment(events[n - 1], workspace, id);
            let failed = own && events[n - 1].event.event is Health && (
            events[n - 1].event.event->kind is IngestionError
                || events[n - 1].event.event->kind is NonfiniteMetric);
            &&& experiment_events::count(events, workspace, id, 0) == 0
            &&& experiment_events::count_errors(events, workspace, id, 0) == 0
            &&& experiment_events::count(events, workspace, id, n) == experiment_events::count(
                events,
                workspace,
                id,
                n - 1,
            ) + (if own {
                1int
            } else {
                0
            })
            &&& experiment_events::count_errors(events, workspace, id, n)
                == experiment_events::count_errors(events, workspace, id, n - 1) + (if failed {
                1int
            } else {
                0
            })
        }),
{
}

/// The last time and the last checkpoint of an experiment are those of the last of its
/// events, and of the last of its checkpoints.
pub proof fn law_the_last_of_an_experiment_is_shown(
    events: Seq<StoredEvent>,
    workspace: Seq<char>,
    id: Seq<char>,
    n: int,
    k: int,
)
    requires
        0 <= k < n <= events.len(),
    ensures
        of_experiment(events[k], workspace, id) && (forall|m: int|
            k < m < n ==> !of_experiment(#[trigger] events[m], workspace, id))
            ==> experiment_events::last_time(events, workspace, id, n) == Some(
            events[k].event.timestamp_ms,
        ),
        of_experiment(events[k], workspace, id) && events[k].event.event is Checkpoint && (forall|
            m: int,
        |
            k < m < n ==> !(of_experiment(#[trigger] events[m], workspace, id)
                && events[m].event.event is Checkpoint)) ==> experiment_events::last_checkpoint(
            events,
            workspace,
            id,
            n,
        ) == Some(events[k].event.event->Checkpoint_path@),
    decreases n,
{
    if k < n - 1 {
        law_the_last_of_an_experiment_is_shown(events, workspace, id, n - 1, k);
        let m: int = n - 1;
        assert(of_experiment(events[m], workspace, id) || !of_experiment(
            events[m],
            workspace,
            id,
        ));
    }
}

} // verus!
