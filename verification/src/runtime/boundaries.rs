//! What a decision boundary is met by, and which boundaries may be declared.
use crate::planning::model::VerificationProfile;
use crate::runtime::experiment_decisions;
use crate::runtime::experiment_decisions::{
    BoundaryDefinition, BoundaryLimits, EventRow, MetricComparison,
};
use crate::runtime::experiment_events::{StoredEvent, Tag};
use crate::runtime::issued;
use crate::store::{StoredCursor, StoredDecision};
use vstd::prelude::*;

verus! {

// ---------------------------------------------------------------------------
// Comparing
// ---------------------------------------------------------------------------
/// Of two numbers that are numbers exactly one holds: the first is greater, less or
/// equal. The comparisons that allow equality are those and equality; turning a
/// comparison round turns its sides; and a threshold that is not a number is never met.
pub proof fn law_numbers_compare_one_way(observed: u64, threshold: u64)
    ensures
        ({
            let greater = experiment_decisions::holds(
                MetricComparison::GreaterThan,
                observed,
                threshold,
            );
            let less = experiment_decisions::holds(MetricComparison::LessThan, observed, threshold);
            let equal = experiment_decisions::holds(MetricComparison::Equal, observed, threshold);
            let numbers = !experiment_decisions::nan(observed) && !experiment_decisions::nan(
                threshold,
            );
            &&& numbers <==> greater || less || equal
            &&& !(greater && less) && !(greater && equal) && !(less && equal)
            &&& experiment_decisions::holds(
                MetricComparison::GreaterThanOrEqual,
                observed,
                threshold,
            ) <==> greater || equal
            &&& experiment_decisions::holds(
                MetricComparison::LessThanOrEqual,
                observed,
                threshold,
            ) <==> less || equal
            &&& greater <==> experiment_decisions::holds(
                MetricComparison::LessThan,
                threshold,
                observed,
            )
        }),
{
}

/// A number without the sign bit is greater with its bits, one with it less; nothing with
/// the sign bit is greater than anything without, and both zeros are equal.
pub proof fn law_numbers_are_ordered_by_sign_and_size(a: u64, b: u64)
    requires
        !experiment_decisions::nan(a),
        !experiment_decisions::nan(b),
    ensures
        ({
            let sign: u64 = 0x8000_0000_0000_0000;
            let greater = experiment_decisions::holds(MetricComparison::GreaterThan, a, b);
            &&& a < sign && b < sign ==> (greater <==> a > b)
            &&& a >= sign && b >= sign ==> (greater <==> a < b)
            &&& a >= sign && b < sign ==> !greater
            &&& a == sign && b == 0 ==> experiment_decisions::holds(MetricComparison::Equal, a, b)
            &&& a < sign && b >= sign && !(a == 0 && b == sign) ==> greater
        }),
{
}

// ---------------------------------------------------------------------------
// Tags
// ---------------------------------------------------------------------------
/// Whether tags hold a value under a key: the first of that key has it.
pub open spec fn tagged(tags: Seq<Tag>, key: Seq<char>, value: Seq<char>) -> bool {
    exists|n: int|
        {
            &&& 0 <= n < tags.len()
            &&& (#[trigger] tags[n]).key@ == key
            &&& tags[n].value@ == value
            &&& forall|m: int| 0 <= m < n ==> (#[trigger] tags[m]).key@ != key
        }
}

proof fn lemma_tag_at(tags: Seq<Tag>, key: Seq<char>, i: int) -> (n: int)
    requires
        0 <= i,
    ensures
        match experiment_decisions::tag_at(tags, key, i) {
            Some(v) => i <= n < tags.len() && tags[n].key@ == key && tags[n].value@ == v
                && forall|m: int| i <= m < n ==> (#[trigger] tags[m]).key@ != key,
            None => forall|m: int| i <= m < tags.len() ==> (#[trigger] tags[m]).key@ != key,
        },
    decreases tags.len() - i,
{
    if i >= tags.len() || tags[i].key@ == key {
        i
    } else {
        lemma_tag_at(tags, key, i + 1)
    }
}

proof fn lemma_tagged(tags: Seq<Tag>, key: Seq<char>, value: Seq<char>)
    ensures
        experiment_decisions::tag_at(tags, key, 0) == Some(value) <==> tagged(tags, key, value),
{
    let n = lemma_tag_at(tags, key, 0);
    if experiment_decisions::tag_at(tags, key, 0) == Some(value) {
        assert(tags[n].key@ == key);
    }
    if tagged(tags, key, value) {
        let m = choose|m: int|
            {
                &&& 0 <= m < tags.len()
                &&& (#[trigger] tags[m]).key@ == key
                &&& tags[m].value@ == value
                &&& forall|j: int| 0 <= j < m ==> (#[trigger] tags[j]).key@ != key
            };
        assert(tags[m].key@ == key);
        assert(experiment_decisions::tag_at(tags, key, 0) is Some);
        assert(m == n);
    }
}

/// A selector takes a metric whose tags hold each of its own; one without tags takes only
/// a metric without tags.
pub proof fn law_selectors_take_what_holds_their_tags(selector: Seq<Tag>, tags: Seq<Tag>, n: int)
    ensures
        selector.len() == 0 ==> (experiment_decisions::tags_selected(selector, tags) <==> tags.len()
            == 0),
        experiment_decisions::tags_selected(selector, tags) && 0 <= n < selector.len() ==> tagged(
            tags,
            selector[n].key@,
            selector[n].value@,
        ),
        selector.len() > 0 && (forall|m: int|
            0 <= m < selector.len() ==> tagged(
                tags,
                (#[trigger] selector[m]).key@,
                selector[m].value@,
            )) ==> experiment_decisions::tags_selected(selector, tags),
{
    if 0 <= n < selector.len() {
        lemma_tagged(tags, selector[n].key@, selector[n].value@);
    }
    if selector.len() > 0 && forall|m: int|
        0 <= m < selector.len() ==> tagged(
            tags,
            (#[trigger] selector[m]).key@,
            selector[m].value@,
        ) {
        assert forall|m: int| 0 <= m < selector.len() implies experiment_decisions::tag_at(
            tags,
            (#[trigger] selector[m]).key@,
            0,
        ) == Some(selector[m].value@) by {
            lemma_tagged(tags, selector[m].key@, selector[m].value@);
        }
    }
}

/// A boundary is met exactly by a metric of its name with a finite value, whose tags its
/// selector takes, and whose value compares to the threshold as it says.
pub proof fn law_boundaries_are_met_by_their_metric(
    boundaries: Seq<BoundaryDefinition>,
    row: EventRow,
    b: int,
)
    ensures
        experiment_decisions::qualifies(boundaries, row, b) <==> {
            &&& row.is_metric
            &&& (row.value / 4_503_599_627_370_496) % 2_048 != 2_047
            &&& boundaries[b].condition is MetricThreshold
            &&& boundaries[b].condition->metric@ == row.metric_name@
            &&& experiment_decisions::tags_selected(boundaries[b].condition->tags@, row.tags@)
            &&& experiment_decisions::holds(
                boundaries[b].condition->comparison,
                row.value,
                boundaries[b].condition->value,
            )
        },
{
}

// ---------------------------------------------------------------------------
// Declaring
// ---------------------------------------------------------------------------
/// Whether a boundary may be declared: nothing stands against it, no earlier one has its
/// name, it is met by a metric, and the check that a review runs is defined.
pub open spec fn declarable(
    boundaries: Seq<BoundaryDefinition>,
    profiles: Seq<VerificationProfile>,
    rule: Option<String>,
    b: int,
) -> bool {
    &&& rule is None
    &&& forall|a: int|
        0 <= a < b ==> (#[trigger] boundaries[a]).boundary_id@ != boundaries[b].boundary_id@
    &&& boundaries[b].condition is MetricThreshold
    &&& boundaries[b].action is RequirePlannerReview ==> exists|p: int|
        0 <= p < profiles.len() && (#[trigger] profiles[p]).name@
            == boundaries[b].action->verification_ref@
}

proof fn lemma_declarable(
    boundaries: Seq<BoundaryDefinition>,
    profiles: Seq<VerificationProfile>,
    rule: Option<String>,
    b: int,
)
    ensures
        experiment_decisions::boundary_refusal(boundaries, profiles, rule, b) is None
            <==> declarable(boundaries, profiles, rule, b),
{
    if boundaries[b].action is RequirePlannerReview {
        let name = boundaries[b].action->verification_ref@;
        issued::law_profiles_are_found_by_name(profiles, name);
        if let Some(k) = crate::runtime::issue::profile_at(profiles, name, 0) {
            assert(profiles[k].name@ == name);
        }
    }
}

proof fn lemma_all_declarable(
    boundaries: Seq<BoundaryDefinition>,
    profiles: Seq<VerificationProfile>,
    rules: Seq<Option<String>>,
    i: int,
)
    requires
        0 <= i,
    ensures
        experiment_decisions::boundaries_refusal(boundaries, profiles, rules, i) is None
            <==> forall|b: int|
            i <= b < boundaries.len() ==> #[trigger] declarable(
                boundaries,
                profiles,
                rules[b],
                b,
            ),
    decreases boundaries.len() - i,
{
    if i < boundaries.len() {
        lemma_all_declarable(boundaries, profiles, rules, i + 1);
        lemma_declarable(boundaries, profiles, rules[i], i);
        if experiment_decisions::boundaries_refusal(boundaries, profiles, rules, i) is None {
            assert(declarable(boundaries, profiles, rules[i], i));
        }
    }
}

/// Boundaries are declared exactly where they are few enough, each may be declared, and,
/// where one asks for a review, the number of reviews is at least one and bounded.
pub proof fn law_boundaries_are_declared_where_they_can_be_decided(
    boundaries: Seq<BoundaryDefinition>,
    profiles: Seq<VerificationProfile>,
    rules: Seq<Option<String>>,
    max_planner_wakeups: u32,
    limits: BoundaryLimits,
)
    ensures
        experiment_decisions::declaration_refusal(
            boundaries,
            profiles,
            rules,
            max_planner_wakeups,
            limits,
        ) is None <==> {
            &&& boundaries.len() <= limits.max_boundaries
            &&& forall|b: int|
                0 <= b < boundaries.len() ==> #[trigger] declarable(
                    boundaries,
                    profiles,
                    rules[b],
                    b,
                )
            &&& (exists|b: int|
                0 <= b < boundaries.len() && (
                #[trigger] boundaries[b]).action is RequirePlannerReview) ==> 1
                <= max_planner_wakeups <= limits.max_wakeups
        },
{
    lemma_all_declarable(boundaries, profiles, rules, 0);
}

// ---------------------------------------------------------------------------
// What is read back
// ---------------------------------------------------------------------------
/// The decisions that are shown for an experiment are its own in its workspace, in order.
pub proof fn law_shown_decisions_are_the_experiments_own(
    all: Seq<StoredDecision>,
    workspace: Seq<char>,
    id: Seq<char>,
    i: int,
    n: int,
)
    requires
        0 <= i,
    ensures
        experiment_decisions::decisions_from(all, workspace, id, i).contains(n) <==> i <= n
            < all.len() && all[n].workspace_id@ == workspace && all[n].decision.experiment_id@ == id,
    decreases all.len() - i,
{
    if i < all.len() {
        law_shown_decisions_are_the_experiments_own(all, workspace, id, i + 1, n);
        let out = experiment_decisions::decisions_from(all, workspace, id, i);
        let rest = experiment_decisions::decisions_from(all, workspace, id, i + 1);
        if all[i].workspace_id@ == workspace && all[i].decision.experiment_id@ == id {
            lemma_led(out, rest, i, n);
        }
    }
}

proof fn lemma_led<T>(out: Seq<T>, rest: Seq<T>, first: T, x: T)
    requires
        out == seq![first] + rest,
    ensures
        out.contains(x) <==> x == first || rest.contains(x),
{
    assert(out[0] == first);
    if rest.contains(x) {
        let m = choose|m: int| 0 <= m < rest.len() && rest[m] == x;
        assert(out[m + 1] == x);
    }
    if out.contains(x) && x != first {
        let m = choose|m: int| 0 <= m < out.len() && out[m] == x;
        assert(rest[m - 1] == x);
    }
}

/// The boundaries that are known to be decided are those of the decisions of the
/// experiment and the attempt.
pub proof fn law_decided_boundaries_are_those_of_the_attempt(
    all: Seq<StoredDecision>,
    id: Seq<char>,
    attempt: u32,
    i: int,
    name: Seq<char>,
)
    requires
        0 <= i,
    ensures
        experiment_decisions::decided_from(all, id, attempt, i).contains(name) <==> exists|n: int|
            {
                &&& i <= n < all.len()
                &&& (#[trigger] all[n]).decision.experiment_id@ == id
                &&& all[n].decision.attempt == attempt
                &&& all[n].decision.boundary.boundary_id@ == name
            },
    decreases all.len() - i,
{
    if i < all.len() {
        law_decided_boundaries_are_those_of_the_attempt(all, id, attempt, i + 1, name);
        let out = experiment_decisions::decided_from(all, id, attempt, i);
        let rest = experiment_decisions::decided_from(all, id, attempt, i + 1);
        if all[i].decision.experiment_id@ == id && all[i].decision.attempt == attempt {
            lemma_led(out, rest, all[i].decision.boundary.boundary_id@, name);
        }
    }
}

/// The events that are evaluated next are those of the experiment and the attempt that
/// arrived after the cursor, in order, and all of them where they are fewer than a batch.
pub proof fn law_the_next_events_are_those_after_the_cursor(
    events: Seq<StoredEvent>,
    workspace: Seq<char>,
    id: Seq<char>,
    attempt: u32,
    after: i64,
    left: int,
    i: int,
    n: int,
)
    requires
        0 <= i,
        0 <= left,
    ensures
        ({
            let out = experiment_decisions::next_from(events, workspace, id, attempt, after, left, i);
            let next = i <= n < events.len() && events[n].event.workspace_id@ == workspace
                && events[n].event.experiment_id@ == id && events[n].event.attempt == attempt
                && events[n].event.arrival_sequence > after;
            &&& out.len() <= left
            &&& out.contains(n) ==> next
            &&& next && out.len() < left ==> out.contains(n)
        }),
    decreases events.len() - i,
{
    if i < events.len() && left > 0 {
        let out = experiment_decisions::next_from(events, workspace, id, attempt, after, left, i);
        if experiment_decisions::is_next(events[i], workspace, id, attempt, after) {
            law_the_next_events_are_those_after_the_cursor(
                events,
                workspace,
                id,
                attempt,
                after,
                left - 1,
                i + 1,
                n,
            );
            let rest = experiment_decisions::next_from(
                events,
                workspace,
                id,
                attempt,
                after,
                left - 1,
                i + 1,
            );
            lemma_led(out, rest, i, n);
        } else {
            law_the_next_events_are_those_after_the_cursor(
                events,
                workspace,
                id,
                attempt,
                after,
                left,
                i + 1,
                n,
            );
        }
    }
}

/// A cursor is that of its experiment and attempt, and the first of them.
pub proof fn law_cursors_are_kept_by_attempt(
    all: Seq<StoredCursor>,
    id: Seq<char>,
    attempt: u32,
    i: int,
)
    requires
        0 <= i,
    ensures
        match experiment_decisions::cursor_at(all, id, attempt, i) {
            Some(k) => i <= k < all.len() && all[k].experiment_id@ == id && all[k].attempt == attempt
                && forall|j: int|
                i <= j < k ==> !((#[trigger] all[j]).experiment_id@ == id && all[j].attempt
                    == attempt),
            None => forall|j: int|
                i <= j < all.len() ==> !((#[trigger] all[j]).experiment_id@ == id && all[j].attempt
                    == attempt),
        },
    decreases all.len() - i,
{
    if i < all.len() {
        law_cursors_are_kept_by_attempt(all, id, attempt, i + 1);
    }
}

} // verus!
