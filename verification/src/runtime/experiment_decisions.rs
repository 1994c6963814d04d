//! From facts to decisions: boundaries are declared once, when an experiment is
//! created, and evaluated purely against events that were already recorded.
use crate::error::{invalid, Error};
use crate::planning::model::VerificationProfile;
use crate::planning::validation;
use crate::repository::WorkspaceId;
use crate::runtime::experiment;
use crate::runtime::experiment::ExperimentRun;
use crate::runtime::experiment_events;
use crate::runtime::experiment_events::{copied_tags, is_finite, ExperimentEventData, StoredEvent, Tag};
use crate::runtime::issue;
use crate::runtime::issue::find_profile;
use crate::store::{JournalEntry, Store, StoredCursor, StoredDecision};
use crate::text;
use vstd::prelude::*;

verus! {

/// How many events one evaluation takes in.
pub const EVALUATION_BATCH_SIZE: usize = 512;

#[derive(Debug, Clone, Copy, PartialEq, Eq, Structural)]
pub enum MetricComparison {
    GreaterThan,
    GreaterThanOrEqual,
    LessThan,
    LessThanOrEqual,
    Equal,
}

/// What a boundary waits for. Only a threshold is decided automatically; of any
/// other condition it is kept how it is shown.
#[derive(Debug, PartialEq, Eq)]
pub enum ExperimentBoundary {
    MetricThreshold {
        metric: String,
        tags: Vec<Tag>,
        comparison: MetricComparison,
        /// The bits of the threshold.
        value: u64,
    },
    Other(String),
}

#[derive(Debug, PartialEq, Eq)]
pub enum BoundaryAction {
    RecordOnly,
    RequirePlannerReview { verification_ref: String },
}

#[derive(Debug, PartialEq, Eq)]
pub struct BoundaryDefinition {
    pub boundary_id: String,
    pub condition: ExperimentBoundary,
    pub action: BoundaryAction,
}

impl BoundaryDefinition {
    /// Whether two boundaries say the same.
    pub open spec fn alike(self, other: BoundaryDefinition) -> bool {
        &&& self.boundary_id == other.boundary_id
        &&& match (self.condition, other.condition) {
            (
                ExperimentBoundary::MetricThreshold { metric: m, tags: t, comparison: c, value: v },
                ExperimentBoundary::MetricThreshold { metric: n, tags: u, comparison: d, value: w },
            ) => m == n && t@ == u@ && c == d && v == w,
            (ExperimentBoundary::Other(a), ExperimentBoundary::Other(b)) => a == b,
            _ => false,
        }
        &&& self.action == other.action
    }

    pub fn copy(&self) -> (r: Self)
        ensures
            r.alike(*self),
    {
        BoundaryDefinition {
            boundary_id: self.boundary_id.clone(),
            condition: match &self.condition {
                ExperimentBoundary::MetricThreshold {
                    metric,
                    tags,
                    comparison,
                    value,
                } => ExperimentBoundary::MetricThreshold {
                    metric: metric.clone(),
                    tags: copied_tags(tags),
                    comparison: *comparison,
                    value: *value,
                },
                ExperimentBoundary::Other(name) => ExperimentBoundary::Other(name.clone()),
            },
            action: match &self.action {
                BoundaryAction::RecordOnly => BoundaryAction::RecordOnly,
                BoundaryAction::RequirePlannerReview {
                    verification_ref,
                } => BoundaryAction::RequirePlannerReview {
                    verification_ref: verification_ref.clone(),
                },
            },
        }
    }
}

// ---------------------------------------------------------------------------
// Declarations
// ---------------------------------------------------------------------------

/// The value of a tag, looked up from the `i`-th on.
pub open spec fn tag_at(tags: Seq<Tag>, key: Seq<char>, i: int) -> Option<Seq<char>>
    decreases tags.len() - i,
{
    if i < 0 || i >= tags.len() {
        None
    } else if tags[i].key@ == key {
        Some(tags[i].value@)
    } else {
        tag_at(tags, key, i + 1)
    }
}

fn has_tag(tags: &Vec<Tag>, key: &str, value: &str) -> (r: bool)
    ensures
        r == (tag_at(tags@, key@, 0) == Some(value@)),
{
    let mut i: usize = 0;
    while i < tags.len()
        invariant
            i <= tags@.len(),
            tag_at(tags@, key@, 0) == tag_at(tags@, key@, i as int),
        decreases tags@.len() - i,
    {
        if text::same(tags[i].key.as_str(), key) {
            return text::same(tags[i].value.as_str(), value);
        }
        i += 1;
    }
    false
}

/// Whether the tags of an event satisfy a selector: every tag that it names has
/// its value. A selector that names none matches only an event without tags, so
/// that it never starts to match a series it was not declared for.
pub open spec fn tags_selected(selector: Seq<Tag>, tags: Seq<Tag>) -> bool {
    if selector.len() == 0 {
        tags.len() == 0
    } else {
        forall|i: int|
            0 <= i < selector.len() ==> tag_at(tags, (#[trigger] selector[i]).key@, 0) == Some(
                selector[i].value@,
            )
    }
}

pub fn tags_match(selector: &Vec<Tag>, tags: &Vec<Tag>) -> (r: bool)
    ensures
        r == tags_selected(selector@, tags@),
{
    if selector.len() == 0 {
        return tags.len() == 0;
    }
    let mut i: usize = 0;
    while i < selector.len()
        invariant
            i <= selector@.len(),
            selector@.len() > 0,
            forall|k: int|
                0 <= k < i ==> tag_at(tags@, (#[trigger] selector@[k]).key@, 0) == Some(
                    selector@[k].value@,
                ),
        decreases selector@.len() - i,
    {
        if !has_tag(tags, selector[i].key.as_str(), selector[i].value.as_str()) {
            return false;
        }
        i += 1;
    }
    true
}

/// How many boundaries an experiment may declare, and how often it may wake a
/// planner.
#[derive(Debug, Clone, Copy, PartialEq, Eq, Structural)]
pub struct BoundaryLimits {
    pub max_boundaries: usize,
    pub max_wakeups: u32,
}

/// Whether a boundary identifier occurs before the `i`-th one.
pub open spec fn repeated(boundaries: Seq<BoundaryDefinition>, i: int) -> bool {
    exists|k: int| 0 <= k < i && (#[trigger] boundaries[k]).boundary_id@ == boundaries[i].boundary_id@
}

/// What is said of a condition that is not decided automatically.
pub open spec fn unevaluated(id: Seq<char>, condition: Seq<char>) -> Seq<char> {
    "boundary "@ + id
        + ": Stage 9C only auto-evaluates METRIC_THRESHOLD conditions against persisted Stage 9B metric facts; "@
        + condition + " is not decided automatically"@
}

/// Why a boundary cannot be declared, if it cannot. `rule` is what the protocol
/// has against it.
pub open spec fn boundary_refusal(
    boundaries: Seq<BoundaryDefinition>,
    profiles: Seq<VerificationProfile>,
    rule: Option<String>,
    i: int,
) -> Option<Seq<char>> {
    let b = boundaries[i];
    match rule {
        Some(m) => Some(m@),
        None => if repeated(boundaries, i) {
            Some("duplicate boundary_id "@ + b.boundary_id@)
        } else {
            match b.condition {
                ExperimentBoundary::Other(name) => Some(unevaluated(b.boundary_id@, name@)),
                ExperimentBoundary::MetricThreshold { .. } => match b.action {
                    BoundaryAction::RequirePlannerReview {
                        verification_ref,
                    } => if issue::profile_at(profiles, verification_ref@, 0) is None {
                        Some(
                            "boundary "@ + b.boundary_id@ + ": verification_ref "@
                                + verification_ref@ + " is not defined in project policy"@,
                        )
                    } else {
                        None
                    },
                    BoundaryAction::RecordOnly => None,
                },
            }
        },
    }
}

/// Why the boundaries from the `i`-th on cannot be declared.
pub open spec fn boundaries_refusal(
    boundaries: Seq<BoundaryDefinition>,
    profiles: Seq<VerificationProfile>,
    rules: Seq<Option<String>>,
    i: int,
) -> Option<Seq<char>>
    decreases boundaries.len() - i,
{
    if i < 0 || i >= boundaries.len() {
        None
    } else {
        crate::error::either(
            boundary_refusal(boundaries, profiles, rules[i], i),
            boundaries_refusal(boundaries, profiles, rules, i + 1),
        )
    }
}

/// Whether a boundary asks for a planner.
pub open spec fn wakes(boundaries: Seq<BoundaryDefinition>) -> bool {
    exists|i: int|
        0 <= i < boundaries.len() && (#[trigger] boundaries[i]).action is RequirePlannerReview
}

/// Why the declarations of an experiment are not acceptable, if they are not.
pub open spec fn declaration_refusal(
    boundaries: Seq<BoundaryDefinition>,
    profiles: Seq<VerificationProfile>,
    rules: Seq<Option<String>>,
    max_planner_wakeups: u32,
    limits: BoundaryLimits,
) -> Option<Seq<char>> {
    if boundaries.len() > limits.max_boundaries {
        Some(
            "experiment declares more than "@ + text::digits(limits.max_boundaries as nat)
                + " decision boundaries"@,
        )
    } else {
        crate::error::either(
            boundaries_refusal(boundaries, profiles, rules, 0),
            if wakes(boundaries) && !(1 <= max_planner_wakeups <= limits.max_wakeups) {
                Some(
                    "experiment declares a planner-review boundary; max_planner_wakeups must be 1..="@
                        + text::digits(limits.max_wakeups as nat),
                )
            } else {
                None
            },
        )
    }
}

fn is_repeated(boundaries: &Vec<BoundaryDefinition>, i: usize) -> (r: bool)
    requires
        i < boundaries@.len(),
    ensures
        r == repeated(boundaries@, i as int),
{
    let mut k: usize = 0;
    while k < i
        invariant
            k <= i < boundaries@.len(),
            forall|j: int|
                0 <= j < k ==> (#[trigger] boundaries@[j]).boundary_id@
                    != boundaries@[i as int].boundary_id@,
        decreases i - k,
    {
        if text::same(boundaries[k].boundary_id.as_str(), boundaries[i].boundary_id.as_str()) {
            return true;
        }
        k += 1;
    }
    false
}

fn check_boundary(
    boundaries: &Vec<BoundaryDefinition>,
    profiles: &Vec<VerificationProfile>,
    rule: &Option<String>,
    i: usize,
) -> (r: Result<(), Error>)
    requires
        i < boundaries@.len(),
    ensures
        crate::error::settles(r, boundary_refusal(boundaries@, profiles@, *rule, i as int)),
{
    let b: &BoundaryDefinition = &boundaries[i];
    match validation::unless(rule) {
        Ok(()) => {},
        Err(e) => return Err(e),
    }
    if is_repeated(boundaries, i) {
        let said: String = text::join2("duplicate boundary_id ", b.boundary_id.as_str());
        return invalid(said.as_str());
    }
    match &b.condition {
        ExperimentBoundary::Other(name) => {
            let head: String = text::join3(
                "boundary ",
                b.boundary_id.as_str(),
                ": Stage 9C only auto-evaluates METRIC_THRESHOLD conditions against persisted Stage 9B metric facts; ",
            );
            let said: String = text::join3(
                head.as_str(),
                name.as_str(),
                " is not decided automatically",
            );
            return invalid(said.as_str());
        },
        ExperimentBoundary::MetricThreshold { .. } => {},
    }
    match &b.action {
        BoundaryAction::RequirePlannerReview { verification_ref } => {
            if find_profile(profiles, verification_ref.as_str()).is_none() {
                let head: String = text::join3(
                    "boundary ",
                    b.boundary_id.as_str(),
                    ": verification_ref ",
                );
                let said: String = text::join3(
                    head.as_str(),
                    verification_ref.as_str(),
                    " is not defined in project policy",
                );
                return invalid(said.as_str());
            }
        },
        BoundaryAction::RecordOnly => {},
    }
    Ok(())
}

/// Checks the boundaries that an experiment declares. They never change after
/// that.
pub fn validate_boundaries(
    boundaries: &Vec<BoundaryDefinition>,
    profiles: &Vec<VerificationProfile>,
    rules: &Vec<Option<String>>,
    max_planner_wakeups: u32,
    limits: &BoundaryLimits,
) -> (r: Result<(), Error>)
    requires
        rules@.len() == boundaries@.len(),
    ensures
        crate::error::settles(
            r,
            declaration_refusal(boundaries@, profiles@, rules@, max_planner_wakeups, *limits),
        ),
{
    if boundaries.len() > limits.max_boundaries {
        let most: String = text::decimal(limits.max_boundaries as u64);
        let said: String = text::join3(
            "experiment declares more than ",
            most.as_str(),
            " decision boundaries",
        );
        return invalid(said.as_str());
    }
    let mut reviewed: bool = false;
    let mut i: usize = 0;
    while i < boundaries.len()
        invariant
            i <= boundaries@.len(),
            rules@.len() == boundaries@.len(),
            boundaries@.len() <= limits.max_boundaries,
            boundaries_refusal(boundaries@, profiles@, rules@, 0) == boundaries_refusal(
                boundaries@,
                profiles@,
                rules@,
                i as int,
            ),
            reviewed == (exists|k: int|
                0 <= k < i && (#[trigger] boundaries@[k]).action is RequirePlannerReview),
        decreases boundaries@.len() - i,
    {
        match check_boundary(boundaries, profiles, &rules[i], i) {
            Ok(()) => {},
            Err(e) => return Err(e),
        }
        match &boundaries[i].action {
            BoundaryAction::RequirePlannerReview { .. } => {
                reviewed = true;
                assert(boundaries@[i as int].action is RequirePlannerReview);
            },
            BoundaryAction::RecordOnly => {},
        }
        i += 1;
    }
    if reviewed && !(1 <= max_planner_wakeups && max_planner_wakeups <= limits.max_wakeups) {
        let most: String = text::decimal(limits.max_wakeups as u64);
        let said: String = text::join2(
            "experiment declares a planner-review boundary; max_planner_wakeups must be 1..=",
            most.as_str(),
        );
        return invalid(said.as_str());
    }
    Ok(())
}

// ---------------------------------------------------------------------------
// Evaluation
// ---------------------------------------------------------------------------

/// Where a double precision number that is no NaN stands among the others, given
/// its bits: the magnitude, with its sign. Both zeros stand at zero.
pub open spec fn rank(bits: u64) -> int {
    if bits >= 0x8000_0000_0000_0000 {
        -(bits - 0x8000_0000_0000_0000)
    } else {
        bits as int
    }
}

fn rank_of(bits: u64) -> (r: i64)
    ensures
        r == rank(bits),
{
    if bits >= 0x8000_0000_0000_0000 {
        -((bits - 0x8000_0000_0000_0000) as i64)
    } else {
        bits as i64
    }
}

/// Whether the bits are those of a NaN: the largest exponent with a fraction.
pub open spec fn nan(bits: u64) -> bool {
    !experiment_events::finite(bits) && bits % 4_503_599_627_370_496 != 0
}

/// Whether a comparison of an observed value with a threshold holds.
pub open spec fn holds(comparison: MetricComparison, observed: u64, threshold: u64) -> bool {
    let (a, b) = (rank(observed), rank(threshold));
    &&& !nan(observed) && !nan(threshold)
    &&& match comparison {
        MetricComparison::GreaterThan => a > b,
        MetricComparison::GreaterThanOrEqual => a >= b,
        MetricComparison::LessThan => a < b,
        MetricComparison::LessThanOrEqual => a <= b,
        MetricComparison::Equal => a == b,
    }
}

fn is_nan(bits: u64) -> (r: bool)
    ensures
        r == nan(bits),
{
    !is_finite(bits) && bits % 4_503_599_627_370_496 != 0
}

pub fn satisfies(comparison: MetricComparison, observed: u64, threshold: u64) -> (r: bool)
    ensures
        r == holds(comparison, observed, threshold),
{
    if is_nan(observed) || is_nan(threshold) {
        return false;
    }
    let a: i64 = rank_of(observed);
    let b: i64 = rank_of(threshold);
    match comparison {
        MetricComparison::GreaterThan => a > b,
        MetricComparison::GreaterThanOrEqual => a >= b,
        MetricComparison::LessThan => a < b,
        MetricComparison::LessThanOrEqual => a <= b,
        MetricComparison::Equal => a == b,
    }
}

/// A recorded event, as boundaries see it.
#[derive(Debug, PartialEq, Eq)]
pub struct EventRow {
    pub arrival_sequence: i64,
    pub is_metric: bool,
    pub metric_name: String,
    /// The bits of the value.
    pub value: u64,
    pub tags: Vec<Tag>,
}

/// Whether an event qualifies for a boundary: it is a finite metric of that name
/// and series that satisfies the comparison.
pub open spec fn qualifies(boundaries: Seq<BoundaryDefinition>, row: EventRow, b: int) -> bool {
    &&& row.is_metric && experiment_events::finite(row.value)
    &&& match boundaries[b].condition {
        ExperimentBoundary::MetricThreshold { metric, tags, comparison, value } => metric@
            == row.metric_name@ && tags_selected(tags@, row.tags@) && holds(
            comparison,
            row.value,
            value,
        ),
        ExperimentBoundary::Other(_) => false,
    }
}

fn does_qualify(boundaries: &Vec<BoundaryDefinition>, row: &EventRow, b: usize) -> (r: bool)
    requires
        b < boundaries@.len(),
    ensures
        r == qualifies(boundaries@, *row, b as int),
{
    row.is_metric && is_finite(row.value) && match &boundaries[b].condition {
        ExperimentBoundary::MetricThreshold { metric, tags, comparison, value } => text::same(
            metric.as_str(),
            row.metric_name.as_str(),
        ) && tags_match(tags, &row.tags) && satisfies(*comparison, row.value, *value),
        ExperimentBoundary::Other(_) => false,
    }
}

/// A boundary that fired, and the event that it fired on.
#[derive(Debug, Clone, Copy, PartialEq, Eq, Structural)]
pub struct Fired {
    pub boundary: usize,
    pub row: usize,
}

/// What fires and what has fired after the boundaries from the `b`-th on have
/// seen an event.
pub open spec fn fired_by(
    boundaries: Seq<BoundaryDefinition>,
    rows: Seq<EventRow>,
    r: int,
    b: int,
    fired: Seq<Seq<char>>,
) -> (Seq<Fired>, Seq<Seq<char>>)
    decreases boundaries.len() - b,
{
    if b < 0 || b >= boundaries.len() {
        (Seq::empty(), fired)
    } else if !fired.contains(boundaries[b].boundary_id@) && qualifies(boundaries, rows[r], b) {
        let rest = fired_by(boundaries, rows, r, b + 1, fired.push(boundaries[b].boundary_id@));
        (seq![Fired { boundary: b as usize, row: r as usize }] + rest.0, rest.1)
    } else {
        fired_by(boundaries, rows, r, b + 1, fired)
    }
}

/// What fires and what has fired after the events from the `r`-th on: events in
/// arrival order, and for one event boundaries in declaration order.
pub open spec fn fires(
    boundaries: Seq<BoundaryDefinition>,
    rows: Seq<EventRow>,
    r: int,
    fired: Seq<Seq<char>>,
) -> (Seq<Fired>, Seq<Seq<char>>)
    decreases rows.len() - r,
{
    if r < 0 || r >= rows.len() {
        (Seq::empty(), fired)
    } else {
        let one = fired_by(boundaries, rows, r, 0, fired);
        let rest = fires(boundaries, rows, r + 1, one.1);
        (one.0 + rest.0, rest.1)
    }
}

fn evaluate_row(
    boundaries: &Vec<BoundaryDefinition>,
    rows: &Vec<EventRow>,
    r: usize,
    fired: &mut Vec<String>,
    out: &mut Vec<Fired>,
)
    requires
        r < rows@.len(),
    ensures
        ({
            let one = fired_by(boundaries@, rows@, r as int, 0, text::texts(old(fired)@));
            &&& final(out)@ == old(out)@ + one.0
            &&& text::texts(final(fired)@) == one.1
        }),
{
    let ghost full = fired_by(boundaries@, rows@, r as int, 0, text::texts(fired@));
    let ghost start = out@;
    let mut b: usize = 0;
    assert(out@ + full.0 =~= start + full.0);
    while b < boundaries.len()
        invariant
            b <= boundaries@.len(),
            r < rows@.len(),
                ({
                let rest = fired_by(boundaries@, rows@, r as int, b as int, text::texts(fired@));
                &&& out@ + rest.0 == start + full.0
                &&& rest.1 == full.1
            }),
        decreases boundaries@.len() - b,
    {
        let ghost so_far = out@;
        let ghost known = text::texts(fired@);
        if !text::among(fired, boundaries[b].boundary_id.as_str()) && does_qualify(
            boundaries,
            &rows[r],
            b,
        ) {
            let one: Fired = Fired { boundary: b, row: r };
            out.push(one);
            fired.push(boundaries[b].boundary_id.clone());
            proof {
                let id = boundaries@[b as int].boundary_id@;
                assert(text::texts(fired@) =~= known.push(id));
                let rest = fired_by(boundaries@, rows@, r as int, b + 1, known.push(id));
                assert(so_far.push(one) + rest.0 =~= so_far + (seq![one] + rest.0));
            }
        }
        b += 1;
    }
    proof {
        let rest = fired_by(boundaries@, rows@, r as int, b as int, text::texts(fired@));
        assert(out@ + rest.0 =~= out@);
    }
}

/// Evaluates a batch of events: what fires, in order. `fired` names the
/// boundaries that were discharged before, and afterwards those that are.
pub fn evaluate_batch(
    boundaries: &Vec<BoundaryDefinition>,
    rows: &Vec<EventRow>,
    fired: &mut Vec<String>,
) -> (r: Vec<Fired>)
    ensures
        ({
            let all = fires(boundaries@, rows@, 0, text::texts(old(fired)@));
            &&& r@ == all.0
            &&& text::texts(final(fired)@) == all.1
        }),
{
    let ghost full = fires(boundaries@, rows@, 0, text::texts(fired@));
    let mut out: Vec<Fired> = Vec::new();
    assert(out@ + full.0 =~= full.0);
    let mut i: usize = 0;
    while i < rows.len()
        invariant
            i <= rows@.len(),
                ({
                let rest = fires(boundaries@, rows@, i as int, text::texts(fired@));
                &&& out@ + rest.0 == full.0
                &&& rest.1 == full.1
            }),
        decreases rows@.len() - i,
    {
        let ghost so_far = out@;
        let ghost known = text::texts(fired@);
        evaluate_row(boundaries, rows, i, fired, &mut out);
        proof {
            let one = fired_by(boundaries@, rows@, i as int, 0, known);
            let rest = fires(boundaries@, rows@, i + 1, one.1);
            assert((so_far + one.0) + rest.0 =~= so_far + (one.0 + rest.0));
        }
        i += 1;
    }
    proof {
        let rest = fires(boundaries@, rows@, i as int, text::texts(fired@));
        assert(out@ + rest.0 =~= out@);
    }
    out
}

pub const CURSOR_MISMATCH: &'static str =
    "experiment decision cursor boundaries_hash no longer matches the frozen declaration";

/// How far an attempt was evaluated, under which declaration.
#[derive(Debug, PartialEq, Eq)]
pub struct Cursor {
    pub sequence: i64,
    pub boundaries_hash: String,
}

/// Where the cursor stands after a batch, and whether more events may follow.
pub fn advance(rows: &Vec<EventRow>) -> (r: Option<(i64, bool)>)
    ensures
        r == if rows@.len() == 0 {
            None::<(i64, bool)>
        } else {
            Some((rows@.last().arrival_sequence, rows@.len() >= EVALUATION_BATCH_SIZE))
        },
{
    if rows.len() == 0 {
        None
    } else {
        Some((rows[rows.len() - 1].arrival_sequence, rows.len() >= EVALUATION_BATCH_SIZE))
    }
}

// ---------------------------------------------------------------------------
// Decisions
// ---------------------------------------------------------------------------

/// A boundary that fired, and exactly what it fired on.
#[derive(Debug, PartialEq, Eq)]
pub struct ExperimentDecision {
    pub decision_id: String,
    pub experiment_id: String,
    pub attempt: u32,
    pub boundary: BoundaryDefinition,
    pub boundaries_hash: String,
    pub triggering_event_sequence: i64,
    pub metric_name: String,
    pub event_tags: Vec<Tag>,
    /// The bits of the observed value.
    pub observed_value: u64,
    pub decided_at_ms: u64,
}

impl ExperimentDecision {
    /// The verification that a planner has to review, if one has to.
    pub fn requires_planner(&self) -> (r: Option<&str>)
        ensures
            match r {
                Some(v) => self.boundary.action matches BoundaryAction::RequirePlannerReview {
                    verification_ref,
                } && v@ == verification_ref@,
                None => self.boundary.action is RecordOnly,
            },
    {
        match &self.boundary.action {
            BoundaryAction::RequirePlannerReview { verification_ref } => Some(
                verification_ref.as_str(),
            ),
            BoundaryAction::RecordOnly => None,
        }
    }
}

/// The declarations that are bound to an experiment.
#[derive(Debug, PartialEq, Eq)]
pub struct ExperimentBoundarySummary {
    pub decision_boundaries: Vec<BoundaryDefinition>,
    pub boundaries_hash: String,
    pub max_planner_wakeups: u32,
}

/// Whether two lists of boundaries say the same.
pub open spec fn all_alike(a: Seq<BoundaryDefinition>, b: Seq<BoundaryDefinition>) -> bool {
    a.len() == b.len() && forall|i: int| 0 <= i < a.len() ==> (#[trigger] a[i]).alike(b[i])
}

pub fn copied_boundaries(boundaries: &Vec<BoundaryDefinition>) -> (r: Vec<BoundaryDefinition>)
    ensures
        all_alike(r@, boundaries@),
{
    let mut out: Vec<BoundaryDefinition> = Vec::new();
    let mut i: usize = 0;
    while i < boundaries.len()
        invariant
            i <= boundaries@.len(),
            out@.len() == i,
            forall|k: int| 0 <= k < i ==> (#[trigger] out@[k]).alike(boundaries@[k]),
        decreases boundaries@.len() - i,
    {
        out.push(boundaries[i].copy());
        i += 1;
    }
    out
}

impl Store {
    /// The declarations that were bound to an experiment when it was created.
    pub fn experiment_boundaries(&self, workspace: &WorkspaceId, id: &str) -> (r: Result<
        ExperimentBoundarySummary,
        Error,
    >)
        ensures
            match experiment::experiment_at(self.experiments@, workspace@, id@, 0) {
                Some(k) => r matches Ok(s) && all_alike(
                    s.decision_boundaries@,
                    self.experiments@[k].run.decision_boundaries@,
                ) && s.boundaries_hash == self.experiments@[k].run.boundaries_hash
                    && s.max_planner_wakeups == self.experiments@[k].run.max_planner_wakeups,
                None => crate::error::refused(r, experiment::NOT_FOUND@),
            },
    {
        match experiment::find_experiment(&self.experiments, workspace, id) {
            Some(k) => {
                let run = &self.experiments[k].run;
                Ok(
                    ExperimentBoundarySummary {
                        decision_boundaries: copied_boundaries(&run.decision_boundaries),
                        boundaries_hash: run.boundaries_hash.clone(),
                        max_planner_wakeups: run.max_planner_wakeups,
                    },
                )
            },
            None => invalid(experiment::NOT_FOUND),
        }
    }

    /// The decisions of an experiment, oldest first.
    pub fn experiment_decisions(&self, workspace: &WorkspaceId, id: &str) -> (r: Vec<
        &ExperimentDecision,
    >)
        ensures
            ({
                let at = decisions_from(self.decisions@, workspace@, id@, 0);
                &&& r@.len() == at.len()
                &&& forall|k: int|
                    0 <= k < r@.len() ==> *(#[trigger] r@[k]) == self.decisions@[at[k]].decision
            }),
    {
        let mut out: Vec<&ExperimentDecision> = Vec::new();
        let ghost all = decisions_from(self.decisions@, workspace@, id@, 0);
        let ghost mut places: Seq<int> = Seq::empty();
        assert(places + all =~= all);
        let mut i: usize = 0;
        while i < self.decisions.len()
            invariant
                i <= self.decisions@.len(),
                places + decisions_from(self.decisions@, workspace@, id@, i as int) == all,
                out@.len() == places.len(),
                forall|k: int|
                    0 <= k < out@.len() ==> *(#[trigger] out@[k])
                        == self.decisions@[places[k]].decision,
            decreases self.decisions@.len() - i,
        {
            let known: &StoredDecision = &self.decisions[i];
            if text::same(known.workspace_id.as_str(), workspace.as_str()) && text::same(
                known.decision.experiment_id.as_str(),
                id,
            ) {
                let ghost so_far = places;
                out.push(&self.decisions[i].decision);
                proof {
                    places = places.push(i as int);
                    let rest = decisions_from(self.decisions@, workspace@, id@, i + 1);
                    assert(so_far.push(i as int) + rest =~= so_far + (seq![i as int] + rest));
                }
            }
            i += 1;
        }
        assert(places + decisions_from(self.decisions@, workspace@, id@, i as int) =~= places);
        out
    }
}

/// The positions of the decisions of an experiment, from the `i`-th on.
pub open spec fn decisions_from(
    all: Seq<StoredDecision>,
    workspace: Seq<char>,
    id: Seq<char>,
    i: int,
) -> Seq<int>
    decreases all.len() - i,
{
    if i < 0 || i >= all.len() {
        Seq::empty()
    } else if all[i].workspace_id@ == workspace && all[i].decision.experiment_id@ == id {
        seq![i] + decisions_from(all, workspace, id, i + 1)
    } else {
        decisions_from(all, workspace, id, i + 1)
    }
}

// ---------------------------------------------------------------------------
// Batches
// ---------------------------------------------------------------------------

/// Whether an event of an attempt has not been evaluated yet.
pub open spec fn is_next(
    e: StoredEvent,
    workspace: Seq<char>,
    id: Seq<char>,
    attempt: u32,
    after: i64,
) -> bool {
    experiment_events::belongs(e, workspace, id) && e.event.attempt == attempt
        && e.event.arrival_sequence > after
}

/// The positions of the events that come next, from the `i`-th on, at most so
/// many.
pub open spec fn next_from(
    events: Seq<StoredEvent>,
    workspace: Seq<char>,
    id: Seq<char>,
    attempt: u32,
    after: i64,
    left: int,
    i: int,
) -> Seq<int>
    decreases events.len() - i,
{
    if i < 0 || i >= events.len() || left <= 0 {
        Seq::empty()
    } else if is_next(events[i], workspace, id, attempt, after) {
        seq![i] + next_from(events, workspace, id, attempt, after, left - 1, i + 1)
    } else {
        next_from(events, workspace, id, attempt, after, left, i + 1)
    }
}

/// Whether a row is what boundaries see of an event.
pub open spec fn is_row(row: EventRow, e: StoredEvent) -> bool {
    &&& row.arrival_sequence == e.event.arrival_sequence
    &&& match e.event.event {
        ExperimentEventData::Metric { name, value, tags, .. } => row.is_metric && row.metric_name@
            == name@ && row.value == value && row.tags@ == tags@,
        _ => !row.is_metric && row.metric_name@ == ""@ && row.value == 0 && row.tags@.len() == 0,
    }
}

fn row_of(e: &StoredEvent) -> (r: EventRow)
    ensures
        is_row(r, *e),
{
    match &e.event.event {
        ExperimentEventData::Metric { name, value, tags, .. } => EventRow {
            arrival_sequence: e.event.arrival_sequence,
            is_metric: true,
            metric_name: name.clone(),
            value: *value,
            tags: copied_tags(tags),
        },
        _ => EventRow {
            arrival_sequence: e.event.arrival_sequence,
            is_metric: false,
            metric_name: "".to_owned(),
            value: 0,
            tags: Vec::new(),
        },
    }
}

/// A batch of events that was evaluated.
#[derive(Debug, PartialEq, Eq)]
pub struct Evaluated {
    pub rows: Vec<EventRow>,
    pub fired: Vec<Fired>,
    pub new_cursor: i64,
    pub more: bool,
}

/// What identifies a decision, and how its observation is shown.
#[derive(Debug, PartialEq, Eq)]
pub struct Naming {
    pub hex: String,
    pub observed: String,
    pub tags: String,
}

pub const PHASE_FIRED: &'static str = "EXPERIMENT_DECISION_FIRED";

/// What the journal records of a decision.
pub open spec fn fired_detail(
    boundary: Seq<char>,
    attempt: nat,
    metric: Seq<char>,
    naming: Naming,
) -> Seq<char> {
    "boundary "@ + boundary + " attempt "@ + text::digits(attempt) + ": "@ + metric + " observed "@
        + naming.observed@ + " tags="@ + naming.tags@
}

/// Whether a decision records that a boundary fired on an event.
pub open spec fn decides(
    d: StoredDecision,
    workspace: Seq<char>,
    run: ExperimentRun,
    attempt: u32,
    fired: Fired,
    rows: Seq<EventRow>,
    hex: Seq<char>,
    now_ms: u64,
) -> bool {
    let row = rows[fired.row as int];
    &&& d.workspace_id@ == workspace
    &&& d.decision.decision_id@ == "decision:"@ + hex
    &&& d.decision.experiment_id@ == run.experiment_id@
    &&& d.decision.attempt == attempt
    &&& d.decision.boundary.alike(run.decision_boundaries@[fired.boundary as int])
    &&& d.decision.boundaries_hash@ == run.boundaries_hash@
    &&& d.decision.triggering_event_sequence == row.arrival_sequence
    &&& d.decision.metric_name@ == row.metric_name@
    &&& d.decision.event_tags@ == row.tags@
    &&& d.decision.observed_value == row.value
    &&& d.decision.decided_at_ms == now_ms
}

/// The boundaries of an attempt that were decided, from the `i`-th decision on.
pub open spec fn decided_from(
    all: Seq<StoredDecision>,
    id: Seq<char>,
    attempt: u32,
    i: int,
) -> Seq<Seq<char>>
    decreases all.len() - i,
{
    if i < 0 || i >= all.len() {
        Seq::empty()
    } else if all[i].decision.experiment_id@ == id && all[i].decision.attempt == attempt {
        seq![all[i].decision.boundary.boundary_id@] + decided_from(all, id, attempt, i + 1)
    } else {
        decided_from(all, id, attempt, i + 1)
    }
}

/// The position of the cursor of an attempt, looked up from the `i`-th on.
pub open spec fn cursor_at(all: Seq<StoredCursor>, id: Seq<char>, attempt: u32, i: int) -> Option<
    int,
>
    decreases all.len() - i,
{
    if i < 0 || i >= all.len() {
        None
    } else if all[i].experiment_id@ == id && all[i].attempt == attempt {
        Some(i)
    } else {
        cursor_at(all, id, attempt, i + 1)
    }
}

/// Whether the cursor of an attempt was moved. The declaration that it was made
/// under stays.
pub open spec fn moved(
    before: Seq<StoredCursor>,
    after: Seq<StoredCursor>,
    run: ExperimentRun,
    attempt: u32,
    sequence: i64,
) -> bool {
    match cursor_at(before, run.experiment_id@, attempt, 0) {
        Some(k) => {
            &&& after.len() == before.len()
            &&& after == before.update(k, after[k])
            &&& after[k].experiment_id@ == before[k].experiment_id@
            &&& after[k].attempt == before[k].attempt
            &&& after[k].cursor.boundaries_hash@ == before[k].cursor.boundaries_hash@
            &&& after[k].cursor.sequence == sequence
        },
        None => {
            &&& after.len() == before.len() + 1
            &&& after.drop_last() == before
            &&& after.last().experiment_id@ == run.experiment_id@
            &&& after.last().attempt == attempt
            &&& after.last().cursor.boundaries_hash@ == run.boundaries_hash@
            &&& after.last().cursor.sequence == sequence
        },
    }
}

/// Which of the fired boundaries from the `i`-th on are recorded: those that were
/// not decided before.
pub open spec fn recorded(
    known: Seq<Seq<char>>,
    boundaries: Seq<BoundaryDefinition>,
    fired: Seq<Fired>,
    i: int,
) -> Seq<int>
    decreases fired.len() - i,
{
    if i < 0 || i >= fired.len() {
        Seq::empty()
    } else {
        let id = boundaries[fired[i].boundary as int].boundary_id@;
        if known.contains(id) {
            recorded(known, boundaries, fired, i + 1)
        } else {
            seq![i] + recorded(known.push(id), boundaries, fired, i + 1)
        }
    }
}

/// Whether what fired names boundaries and rows that there are.
pub open spec fn names_rows(fired: Seq<Fired>, boundaries: nat, rows: nat) -> bool {
    forall|i: int|
        0 <= i < fired.len() ==> (#[trigger] fired[i]).boundary < boundaries && fired[i].row < rows
}

impl Store {
    /// The boundaries of an attempt that were decided.
    pub fn decided(&self, id: &str, attempt: u32) -> (r: Vec<String>)
        ensures
            text::texts(r@) == decided_from(self.decisions@, id@, attempt, 0),
    {
        let mut out: Vec<String> = Vec::new();
        let ghost all = decided_from(self.decisions@, id@, attempt, 0);
        assert(text::texts(out@) + all =~= all);
        let mut i: usize = 0;
        while i < self.decisions.len()
            invariant
                i <= self.decisions@.len(),
                text::texts(out@) + decided_from(self.decisions@, id@, attempt, i as int) == all,
            decreases self.decisions@.len() - i,
        {
            let d: &ExperimentDecision = &self.decisions[i].decision;
            if text::same(d.experiment_id.as_str(), id) && d.attempt == attempt {
                let ghost so_far = text::texts(out@);
                let ghost rest = decided_from(self.decisions@, id@, attempt, i + 1);
                out.push(d.boundary.boundary_id.clone());
                proof {
                    let b = self.decisions@[i as int].decision.boundary.boundary_id@;
                    assert(text::texts(out@) =~= so_far.push(b));
                    assert(so_far.push(b) + rest =~= so_far + (seq![b] + rest));
                }
            }
            i += 1;
        }
        assert(text::texts(out@) + decided_from(self.decisions@, id@, attempt, i as int)
            =~= text::texts(out@));
        out
    }

    fn find_cursor(&self, id: &str, attempt: u32) -> (r: Option<usize>)
        ensures
            match r {
                Some(k) => k < self.cursors@.len() && cursor_at(self.cursors@, id@, attempt, 0)
                    == Some(k as int),
                None => cursor_at(self.cursors@, id@, attempt, 0) is None,
            },
    {
        let mut i: usize = 0;
        while i < self.cursors.len()
            invariant
                i <= self.cursors@.len(),
                cursor_at(self.cursors@, id@, attempt, 0) == cursor_at(
                    self.cursors@,
                    id@,
                    attempt,
                    i as int,
                ),
            decreases self.cursors@.len() - i,
        {
            if text::same(self.cursors[i].experiment_id.as_str(), id) && self.cursors[i].attempt
                == attempt {
                return Some(i);
            }
            i += 1;
        }
        None
    }

    /// Where the evaluation of an attempt goes on. A cursor of another
    /// declaration is an error, never reset.
    pub fn load_cursor(&self, run: &ExperimentRun, attempt: u32) -> (r: Result<i64, Error>)
        ensures
            match cursor_at(self.cursors@, run.experiment_id@, attempt, 0) {
                None => r == Ok::<i64, Error>(0),
                Some(k) => {
                    &&& crate::error::settles(
                        r,
                        if self.cursors@[k].cursor.boundaries_hash@ != run.boundaries_hash@ {
                            Some(CURSOR_MISMATCH@)
                        } else {
                            None
                        },
                    )
                    &&& r matches Ok(n) ==> n == self.cursors@[k].cursor.sequence
                },
            },
    {
        match self.find_cursor(run.experiment_id.as_str(), attempt) {
            None => Ok(0),
            Some(k) => {
                let c: &Cursor = &self.cursors[k].cursor;
                if !text::same(c.boundaries_hash.as_str(), run.boundaries_hash.as_str()) {
                    return invalid(CURSOR_MISMATCH);
                }
                Ok(c.sequence)
            },
        }
    }

    /// The events of an attempt that come after a cursor, in order of arrival,
    /// at most one batch of them.
    pub fn next_batch(&self, workspace: &WorkspaceId, id: &str, attempt: u32, after: i64) -> (r: Vec<
        EventRow,
    >)
        ensures
            ({
                let at = next_from(
                    self.events@,
                    workspace@,
                    id@,
                    attempt,
                    after,
                    EVALUATION_BATCH_SIZE as int,
                    0,
                );
                &&& r@.len() == at.len()
                &&& forall|k: int| 0 <= k < r@.len() ==> is_row(#[trigger] r@[k], self.events@[at[k]])
            }),
    {
        let mut out: Vec<EventRow> = Vec::new();
        let ghost most = EVALUATION_BATCH_SIZE as int;
        let ghost all = next_from(self.events@, workspace@, id@, attempt, after, most, 0);
        let ghost mut places: Seq<int> = Seq::empty();
        assert(places + all =~= all);
        let mut i: usize = 0;
        while i < self.events.len() && out.len() < EVALUATION_BATCH_SIZE
            invariant
                i <= self.events@.len(),
                most == EVALUATION_BATCH_SIZE,
                out@.len() == places.len() <= most,
                places + next_from(
                    self.events@,
                    workspace@,
                    id@,
                    attempt,
                    after,
                    most - places.len(),
                    i as int,
                ) == all,
                forall|k: int|
                    0 <= k < out@.len() ==> is_row(#[trigger] out@[k], self.events@[places[k]]),
            decreases self.events@.len() - i,
        {
            let e: &StoredEvent = &self.events[i];
            if text::same(e.event.workspace_id.as_str(), workspace.as_str()) && text::same(
                e.event.experiment_id.as_str(),
                id,
            ) && e.event.attempt == attempt && e.event.arrival_sequence > after {
                let ghost so_far = places;
                out.push(row_of(e));
                proof {
                    places = places.push(i as int);
                    let rest = next_from(
                        self.events@,
                        workspace@,
                        id@,
                        attempt,
                        after,
                        most - so_far.len() - 1,
                        i + 1,
                    );
                    assert(so_far.push(i as int) + rest =~= so_far + (seq![i as int] + rest));
                }
            }
            i += 1;
        }
        proof {
            let rest = next_from(
                self.events@,
                workspace@,
                id@,
                attempt,
                after,
                most - places.len(),
                i as int,
            );
            assert(rest =~= Seq::empty());
            assert(places + rest =~= places);
        }
        out
    }

    /// Evaluates the next batch of events of an attempt: what it holds, what fires
    /// in it, where the cursor goes, and whether more may follow. Nothing where
    /// every event was evaluated. `fired` names the boundaries of the attempt that
    /// were discharged, before and after.
    pub fn evaluate_next(
        &self,
        workspace: &WorkspaceId,
        run: &ExperimentRun,
        attempt: u32,
        fired: &mut Vec<String>,
    ) -> (r: Result<Option<Evaluated>, Error>)
        ensures
            crate::error::settles(
                r,
                match cursor_at(self.cursors@, run.experiment_id@, attempt, 0) {
                    Some(k) => if self.cursors@[k].cursor.boundaries_hash@
                        != run.boundaries_hash@ {
                        Some(CURSOR_MISMATCH@)
                    } else {
                        None
                    },
                    None => None,
                },
            ),
            r is Err ==> final(fired)@ == old(fired)@,
            r matches Ok(found) ==> {
                let after = match cursor_at(self.cursors@, run.experiment_id@, attempt, 0) {
                    Some(k) => self.cursors@[k].cursor.sequence,
                    None => 0i64,
                };
                let at = next_from(
                    self.events@,
                    workspace@,
                    run.experiment_id@,
                    attempt,
                    after,
                    EVALUATION_BATCH_SIZE as int,
                    0,
                );
                match found {
                    None => at.len() == 0 && final(fired)@ == old(fired)@,
                    Some(e) => {
                        let all = fires(
                            run.decision_boundaries@,
                            e.rows@,
                            0,
                            text::texts(old(fired)@),
                        );
                        &&& e.rows@.len() == at.len() > 0
                        &&& forall|k: int|
                            0 <= k < at.len() ==> is_row(
                                #[trigger] e.rows@[k],
                                self.events@[at[k]],
                            )
                        &&& e.fired@ == all.0
                        &&& names_rows(
                            e.fired@,
                            run.decision_boundaries@.len(),
                            e.rows@.len(),
                        )
                        &&& text::texts(final(fired)@) == all.1
                        &&& e.new_cursor == e.rows@.last().arrival_sequence
                        &&& e.more == (e.rows@.len() >= EVALUATION_BATCH_SIZE)
                    },
                }
            },
    {
        let after: i64 = match self.load_cursor(run, attempt) {
            Ok(n) => n,
            Err(e) => return Err(e),
        };
        let rows: Vec<EventRow> = self.next_batch(
            workspace,
            run.experiment_id.as_str(),
            attempt,
            after,
        );
        match advance(&rows) {
            None => Ok(None),
            Some(next) => {
                proof {
                    assert(run.decision_boundaries.len() == run.decision_boundaries@.len());
                    assert(rows.len() == rows@.len());
                    lemma_fires(run.decision_boundaries@, rows@, 0, text::texts(fired@));
                }
                let now: Vec<Fired> = evaluate_batch(&run.decision_boundaries, &rows, fired);
                Ok(Some(Evaluated { rows, fired: now, new_cursor: next.0, more: next.1 }))
            },
        }
    }

    fn move_cursor(&mut self, run: &ExperimentRun, attempt: u32, sequence: i64)
        ensures
            moved(old(self).cursors@, final(self).cursors@, *run, attempt, sequence),
            final(self).decisions == old(self).decisions,
            final(self).journal == old(self).journal,
            only_decisions_changed(*old(self), *final(self)),
    {
        let ghost before = self.cursors@;
        match self.find_cursor(run.experiment_id.as_str(), attempt) {
            Some(k) => {
                let known: &StoredCursor = &self.cursors[k];
                let next: StoredCursor = StoredCursor {
                    experiment_id: known.experiment_id.clone(),
                    attempt: known.attempt,
                    cursor: Cursor {
                        sequence,
                        boundaries_hash: known.cursor.boundaries_hash.clone(),
                    },
                };
                self.cursors.set(k, next);
                assert(self.cursors@ =~= before.update(k as int, self.cursors@[k as int]));
            },
            None => {
                self.cursors.push(
                    StoredCursor {
                        experiment_id: run.experiment_id.clone(),
                        attempt,
                        cursor: Cursor { sequence, boundaries_hash: run.boundaries_hash.clone() },
                    },
                );
                assert(self.cursors@.drop_last() =~= before);
            },
        }
    }

    fn record_fired(
        &mut self,
        workspace: &WorkspaceId,
        run: &ExperimentRun,
        attempt: u32,
        fired: &Fired,
        rows: &Vec<EventRow>,
        naming: &Naming,
        now_ms: u64,
    )
        requires
            fired.boundary < run.decision_boundaries@.len(),
            fired.row < rows@.len(),
        ensures
            final(self).decisions@.len() == old(self).decisions@.len() + 1,
            final(self).decisions@.drop_last() == old(self).decisions@,
            decides(
                final(self).decisions@.last(),
                workspace@,
                *run,
                attempt,
                *fired,
                rows@,
                naming.hex@,
                now_ms,
            ),
            experiment::journaled(
                old(self).journal@,
                final(self).journal@,
                run.experiment_id@,
                PHASE_FIRED@,
                fired_detail(
                    run.decision_boundaries@[fired.boundary as int].boundary_id@,
                    attempt as nat,
                    rows@[fired.row as int].metric_name@,
                    *naming,
                ),
            ),
            final(self).cursors == old(self).cursors,
            only_decisions_changed(*old(self), *final(self)),
    {
        let ghost before = self.decisions@;
        let row: &EventRow = &rows[fired.row];
        let boundary: &BoundaryDefinition = &run.decision_boundaries[fired.boundary];
        self.decisions.push(
            StoredDecision {
                workspace_id: workspace.clone(),
                decision: ExperimentDecision {
                    decision_id: text::join2("decision:", naming.hex.as_str()),
                    experiment_id: run.experiment_id.clone(),
                    attempt,
                    boundary: boundary.copy(),
                    boundaries_hash: run.boundaries_hash.clone(),
                    triggering_event_sequence: row.arrival_sequence,
                    metric_name: row.metric_name.clone(),
                    event_tags: copied_tags(&row.tags),
                    observed_value: row.value,
                    decided_at_ms: now_ms,
                },
            },
        );
        assert(self.decisions@.drop_last() =~= before);
        let number: String = text::decimal(attempt as u64);
        let said: String = text::join3("boundary ", boundary.boundary_id.as_str(), " attempt ");
        let said: String = text::join3(said.as_str(), number.as_str(), ": ");
        let said: String = text::join3(said.as_str(), row.metric_name.as_str(), " observed ");
        let said: String = text::join3(said.as_str(), naming.observed.as_str(), " tags=");
        let said: String = text::join2(said.as_str(), naming.tags.as_str());
        let ghost notes = self.journal@;
        self.journal.push(
            JournalEntry::Experiment {
                experiment_id: run.experiment_id.clone(),
                phase: PHASE_FIRED.to_owned(),
                detail: said,
            },
        );
        assert(self.journal@.drop_last() =~= notes);
    }

    /// Records what fired in a batch and moves the cursor past the batch, both or
    /// neither. A boundary that was decided before is not decided again. Every
    /// fired boundary comes with its naming.
    pub fn persist_batch(
        &mut self,
        workspace: &WorkspaceId,
        run: &ExperimentRun,
        attempt: u32,
        new_cursor: i64,
        fired: &Vec<Fired>,
        rows: &Vec<EventRow>,
        namings: &Vec<Naming>,
        now_ms: u64,
    )
        requires
            namings@.len() == fired@.len(),
            names_rows(fired@, run.decision_boundaries@.len(), rows@.len()),
        ensures
            moved(old(self).cursors@, final(self).cursors@, *run, attempt, new_cursor),
            only_decisions_changed(*old(self), *final(self)),
            ({
                let known = decided_from(old(self).decisions@, run.experiment_id@, attempt, 0);
                let at = recorded(known, run.decision_boundaries@, fired@, 0);
                let n = old(self).decisions@.len() as int;
                let j = old(self).journal@.len() as int;
                &&& final(self).decisions@.len() == n + at.len()
                &&& final(self).decisions@.take(n) == old(self).decisions@
                &&& final(self).journal@.len() == j + at.len()
                &&& final(self).journal@.take(j) == old(self).journal@
                &&& forall|k: int|
                    0 <= k < at.len() ==> decides(
                        #[trigger] final(self).decisions@[n + k],
                        workspace@,
                        *run,
                        attempt,
                        fired@[at[k]],
                        rows@,
                        namings@[at[k]].hex@,
                        now_ms,
                    )
                &&& forall|k: int|
                    0 <= k < at.len() ==> experiment::notes(
                        #[trigger] final(self).journal@[j + k],
                        run.experiment_id@,
                        PHASE_FIRED@,
                        fired_detail(
                            run.decision_boundaries@[fired@[at[k]].boundary as int].boundary_id@,
                            attempt as nat,
                            rows@[fired@[at[k]].row as int].metric_name@,
                            namings@[at[k]],
                        ),
                    )
            }),
    {
        let ghost start = *self;
        let ghost n = start.decisions@.len() as int;
        let ghost j = start.journal@.len() as int;
        let mut known: Vec<String> = self.decided(run.experiment_id.as_str(), attempt);
        let ghost all = recorded(text::texts(known@), run.decision_boundaries@, fired@, 0);
        let ghost mut at: Seq<int> = Seq::empty();
        proof {
            assert(at + all =~= all);
            assert(self.decisions@.take(n) =~= start.decisions@);
            assert(self.journal@.take(j) =~= start.journal@);
        }
        let mut i: usize = 0;
        while i < fired.len()
            invariant
                i <= fired@.len(),
                namings@.len() == fired@.len(),
                names_rows(fired@, run.decision_boundaries@.len(), rows@.len()),
                n == start.decisions@.len(),
                j == start.journal@.len(),
                at + recorded(text::texts(known@), run.decision_boundaries@, fired@, i as int)
                    == all,
                self.decisions@.len() == n + at.len(),
                self.decisions@.take(n) == start.decisions@,
                self.journal@.len() == j + at.len(),
                self.journal@.take(j) == start.journal@,
                self.cursors == start.cursors,
                only_decisions_changed(start, *self),
                forall|k: int|
                    0 <= k < at.len() ==> decides(
                        #[trigger] self.decisions@[n + k],
                        workspace@,
                        *run,
                        attempt,
                        fired@[at[k]],
                        rows@,
                        namings@[at[k]].hex@,
                        now_ms,
                    ),
                forall|k: int|
                    0 <= k < at.len() ==> experiment::notes(
                        #[trigger] self.journal@[j + k],
                        run.experiment_id@,
                        PHASE_FIRED@,
                        fired_detail(
                            run.decision_boundaries@[fired@[at[k]].boundary as int].boundary_id@,
                            attempt as nat,
                            rows@[fired@[at[k]].row as int].metric_name@,
                            namings@[at[k]],
                        ),
                    ),
            decreases fired@.len() - i,
        {
            let one: Fired = fired[i];
            assert(fired@[i as int].boundary < run.decision_boundaries@.len());
            let boundary: &BoundaryDefinition = &run.decision_boundaries[one.boundary];
            if !text::among(&known, boundary.boundary_id.as_str()) {
                let ghost before = *self;
                let ghost so_far = at;
                let ghost names = text::texts(known@);
                self.record_fired(workspace, run, attempt, &one, rows, &namings[i], now_ms);
                known.push(boundary.boundary_id.clone());
                proof {
                    let id = run.decision_boundaries@[one.boundary as int].boundary_id@;
                    assert(text::texts(known@) =~= names.push(id));
                    at = at.push(i as int);
                    let rest = recorded(names.push(id), run.decision_boundaries@, fired@, i + 1);
                    assert(so_far.push(i as int) + rest =~= so_far + (seq![i as int] + rest));
                    assert(self.decisions@.take(n) =~= self.decisions@.drop_last().take(n));
                    assert(self.journal@.take(j) =~= self.journal@.drop_last().take(j));
                    assert forall|k: int| 0 <= k < at.len() implies decides(
                        #[trigger] self.decisions@[n + k],
                        workspace@,
                        *run,
                        attempt,
                        fired@[at[k]],
                        rows@,
                        namings@[at[k]].hex@,
                        now_ms,
                    ) by {
                        if k < so_far.len() {
                            assert(self.decisions@.drop_last()[n + k] == before.decisions@[n + k]);
                            assert(at[k] == so_far[k]);
                        }
                    }
                    assert forall|k: int| 0 <= k < at.len() implies experiment::notes(
                        #[trigger] self.journal@[j + k],
                        run.experiment_id@,
                        PHASE_FIRED@,
                        fired_detail(
                            run.decision_boundaries@[fired@[at[k]].boundary as int].boundary_id@,
                            attempt as nat,
                            rows@[fired@[at[k]].row as int].metric_name@,
                            namings@[at[k]],
                        ),
                    ) by {
                        if k < so_far.len() {
                            assert(self.journal@.drop_last()[j + k] == before.journal@[j + k]);
                            assert(at[k] == so_far[k]);
                        }
                    }
                }
            }
            i += 1;
        }
        proof {
            let rest = recorded(
                text::texts(known@),
                run.decision_boundaries@,
                fired@,
                i as int,
            );
            assert(at + rest =~= at);
        }
        self.move_cursor(run, attempt, new_cursor);
    }
}

/// Whether a store is as before but for its decisions, its cursors and its
/// journal.
pub open spec fn only_decisions_changed(before: Store, after: Store) -> bool {
    &&& after.plans == before.plans
    &&& after.requests == before.requests
    &&& after.jobs == before.jobs
    &&& after.experiments == before.experiments
    &&& after.events == before.events
}

// ---------------------------------------------------------------------------
// Laws
// ---------------------------------------------------------------------------

proof fn lemma_fired_by(
    boundaries: Seq<BoundaryDefinition>,
    rows: Seq<EventRow>,
    r: int,
    b: int,
    fired: Seq<Seq<char>>,
)
    requires
        0 <= r < rows.len(),
        0 <= b,
        boundaries.len() <= usize::MAX,
        rows.len() <= usize::MAX,
    ensures
        ({
            let one = fired_by(boundaries, rows, r, b, fired);
            &&& forall|t: Seq<char>| fired.contains(t) ==> #[trigger] one.1.contains(t)
            &&& forall|k: int|
                0 <= k < one.0.len() ==> {
                    let f = #[trigger] one.0[k];
                    &&& b <= f.boundary < boundaries.len()
                    &&& f.row == r
                    &&& qualifies(boundaries, rows[r], f.boundary as int)
                    &&& !fired.contains(boundaries[f.boundary as int].boundary_id@)
                    &&& one.1.contains(boundaries[f.boundary as int].boundary_id@)
                }
            &&& forall|j: int, k: int|
                0 <= j < k < one.0.len() ==> boundaries[(
                #[trigger] one.0[j]).boundary as int].boundary_id@ != boundaries[(
                #[trigger] one.0[k]).boundary as int].boundary_id@
            &&& forall|k: int|
                b <= k < boundaries.len() && qualifies(boundaries, rows[r], k)
                    ==> one.1.contains((#[trigger] boundaries[k]).boundary_id@)
        }),
    decreases boundaries.len() - b,
{
    if b < boundaries.len() {
        let id = boundaries[b].boundary_id@;
        let one = fired_by(boundaries, rows, r, b, fired);
        if !fired.contains(id) && qualifies(boundaries, rows[r], b) {
            let more = fired.push(id);
            lemma_fired_by(boundaries, rows, r, b + 1, more);
            let rest = fired_by(boundaries, rows, r, b + 1, more);
            assert(more[fired.len() as int] == id);
            assert(more.contains(id));
            assert forall|t: Seq<char>| fired.contains(t) implies #[trigger] one.1.contains(t) by {
                text::lemma_push_contains(fired, id, t);
            }
            assert forall|k: int| 0 <= k < one.0.len() implies {
                let f = #[trigger] one.0[k];
                &&& b <= f.boundary < boundaries.len()
                &&& f.row == r
                &&& qualifies(boundaries, rows[r], f.boundary as int)
                &&& !fired.contains(boundaries[f.boundary as int].boundary_id@)
                &&& one.1.contains(boundaries[f.boundary as int].boundary_id@)
            } by {
                if k > 0 {
                    assert(one.0[k] == rest.0[k - 1]);
                    text::lemma_push_contains(
                        fired,
                        id,
                        boundaries[one.0[k].boundary as int].boundary_id@,
                    );
                }
            }
            assert forall|j: int, k: int| 0 <= j < k < one.0.len() implies boundaries[(
            #[trigger] one.0[j]).boundary as int].boundary_id@ != boundaries[(
            #[trigger] one.0[k]).boundary as int].boundary_id@ by {
                assert(one.0[k] == rest.0[k - 1]);
                if j > 0 {
                    assert(one.0[j] == rest.0[j - 1]);
                }
            }
        } else {
            lemma_fired_by(boundaries, rows, r, b + 1, fired);
        }
    }
}

proof fn lemma_fires(
    boundaries: Seq<BoundaryDefinition>,
    rows: Seq<EventRow>,
    r: int,
    fired: Seq<Seq<char>>,
)
    requires
        0 <= r,
        boundaries.len() <= usize::MAX,
        rows.len() <= usize::MAX,
    ensures
        ({
            let all = fires(boundaries, rows, r, fired);
            &&& forall|t: Seq<char>| fired.contains(t) ==> #[trigger] all.1.contains(t)
            &&& forall|k: int|
                0 <= k < all.0.len() ==> {
                    let f = #[trigger] all.0[k];
                    &&& f.boundary < boundaries.len()
                    &&& r <= f.row < rows.len()
                    &&& qualifies(boundaries, rows[f.row as int], f.boundary as int)
                    &&& !fired.contains(boundaries[f.boundary as int].boundary_id@)
                    &&& all.1.contains(boundaries[f.boundary as int].boundary_id@)
                }
            &&& forall|j: int, k: int|
                0 <= j < k < all.0.len() ==> boundaries[(
                #[trigger] all.0[j]).boundary as int].boundary_id@ != boundaries[(
                #[trigger] all.0[k]).boundary as int].boundary_id@
            &&& forall|i: int, k: int|
                r <= i < rows.len() && 0 <= k < boundaries.len() && #[trigger] qualifies(
                    boundaries,
                    rows[i],
                    k,
                ) ==> all.1.contains(boundaries[k].boundary_id@)
        }),
    decreases rows.len() - r,
{
    if r < rows.len() {
        let one = fired_by(boundaries, rows, r, 0, fired);
        let rest = fires(boundaries, rows, r + 1, one.1);
        let all = fires(boundaries, rows, r, fired);
        lemma_fired_by(boundaries, rows, r, 0, fired);
        lemma_fires(boundaries, rows, r + 1, one.1);
        assert forall|k: int| 0 <= k < all.0.len() implies {
            let f = #[trigger] all.0[k];
            &&& f.boundary < boundaries.len()
            &&& r <= f.row < rows.len()
            &&& qualifies(boundaries, rows[f.row as int], f.boundary as int)
            &&& !fired.contains(boundaries[f.boundary as int].boundary_id@)
            &&& all.1.contains(boundaries[f.boundary as int].boundary_id@)
        } by {
            if k < one.0.len() {
                assert(all.0[k] == one.0[k]);
            } else {
                assert(all.0[k] == rest.0[k - one.0.len()]);
            }
        }
        assert forall|j: int, k: int| 0 <= j < k < all.0.len() implies boundaries[(
        #[trigger] all.0[j]).boundary as int].boundary_id@ != boundaries[(
        #[trigger] all.0[k]).boundary as int].boundary_id@ by {
            let n = one.0.len();
            if k < n {
                assert(all.0[j] == one.0[j] && all.0[k] == one.0[k]);
            } else if j >= n {
                assert(all.0[j] == rest.0[j - n] && all.0[k] == rest.0[k - n]);
            } else {
                assert(all.0[j] == one.0[j] && all.0[k] == rest.0[k - n]);
            }
        }
        assert forall|i: int, k: int|
            r <= i < rows.len() && 0 <= k < boundaries.len() && #[trigger] qualifies(
                boundaries,
                rows[i],
                k,
            ) implies all.1.contains(boundaries[k].boundary_id@) by {
            if i == r {
                assert(one.1.contains(boundaries[k].boundary_id@));
            }
        }
    }
}

/// A boundary fires at most once in an attempt, never again once it was
/// discharged, and only on an event that qualifies for it.
pub proof fn law_boundaries_fire_at_most_once(
    boundaries: Seq<BoundaryDefinition>,
    rows: Seq<EventRow>,
    fired: Seq<Seq<char>>,
    j: int,
    k: int,
)
    requires
        boundaries.len() <= usize::MAX,
        rows.len() <= usize::MAX,
        0 <= j < fires(boundaries, rows, 0, fired).0.len(),
        0 <= k < fires(boundaries, rows, 0, fired).0.len(),
    ensures
        ({
            let all = fires(boundaries, rows, 0, fired).0;
            &&& qualifies(boundaries, rows[all[j].row as int], all[j].boundary as int)
            &&& !fired.contains(boundaries[all[j].boundary as int].boundary_id@)
            &&& j != k ==> boundaries[all[j].boundary as int].boundary_id@
                != boundaries[all[k].boundary as int].boundary_id@
        }),
{
    lemma_fires(boundaries, rows, 0, fired);
    let all = fires(boundaries, rows, 0, fired).0;
    assert(qualifies(boundaries, rows[all[j].row as int], all[j].boundary as int));
    if j < k {
        assert(boundaries[all[j].boundary as int].boundary_id@
            != boundaries[all[k].boundary as int].boundary_id@);
    } else if k < j {
        assert(boundaries[all[k].boundary as int].boundary_id@
            != boundaries[all[j].boundary as int].boundary_id@);
    }
}

/// Evaluating the same events again, knowing what fired, fires nothing.
pub proof fn law_evaluation_is_idempotent(
    boundaries: Seq<BoundaryDefinition>,
    rows: Seq<EventRow>,
    fired: Seq<Seq<char>>,
)
    requires
        boundaries.len() <= usize::MAX,
        rows.len() <= usize::MAX,
    ensures
        fires(boundaries, rows, 0, fires(boundaries, rows, 0, fired).1).0.len() == 0,
{
    let known = fires(boundaries, rows, 0, fired).1;
    lemma_fires(boundaries, rows, 0, fired);
    lemma_fires(boundaries, rows, 0, known);
    let again = fires(boundaries, rows, 0, known).0;
    if again.len() > 0 {
        let f = again[0];
        assert(qualifies(boundaries, rows[f.row as int], f.boundary as int));
        assert(known.contains(boundaries[f.boundary as int].boundary_id@));
    }
}

/// What fired, in events that come after `n` others.
pub open spec fn later(all: Seq<Fired>, n: int) -> Seq<Fired> {
    all.map_values(|f: Fired| (Fired { boundary: f.boundary, row: (f.row + n) as usize }))
}

proof fn lemma_fired_by_event(
    boundaries: Seq<BoundaryDefinition>,
    rows: Seq<EventRow>,
    r: int,
    others: Seq<EventRow>,
    q: int,
    b: int,
    fired: Seq<Seq<char>>,
)
    requires
        0 <= b,
        0 <= r < rows.len() <= usize::MAX,
        0 <= q < others.len() <= usize::MAX,
        r <= q,
        rows[r] == others[q],
    ensures
        fired_by(boundaries, others, q, b, fired).1 == fired_by(boundaries, rows, r, b, fired).1,
        fired_by(boundaries, others, q, b, fired).0 == later(
            fired_by(boundaries, rows, r, b, fired).0,
            q - r,
        ),
    decreases boundaries.len() - b,
{
    let one = fired_by(boundaries, rows, r, b, fired).0;
    let two = fired_by(boundaries, others, q, b, fired).0;
    if b < boundaries.len() {
        let id = boundaries[b].boundary_id@;
        lemma_fired_by_event(boundaries, rows, r, others, q, b + 1, fired);
        lemma_fired_by_event(boundaries, rows, r, others, q, b + 1, fired.push(id));
    }
    assert(two =~= later(one, q - r));
}

proof fn lemma_fires_later(
    boundaries: Seq<BoundaryDefinition>,
    first: Seq<EventRow>,
    second: Seq<EventRow>,
    r: int,
    fired: Seq<Seq<char>>,
)
    requires
        0 <= r,
        first.len() + second.len() <= usize::MAX,
    ensures
        fires(boundaries, first + second, first.len() + r, fired).1 == fires(
            boundaries,
            second,
            r,
            fired,
        ).1,
        fires(boundaries, first + second, first.len() + r, fired).0 == later(
            fires(boundaries, second, r, fired).0,
            first.len() as int,
        ),
    decreases second.len() - r,
{
    let n = first.len() as int;
    if r < second.len() {
        let one = fired_by(boundaries, second, r, 0, fired);
        lemma_fired_by_event(boundaries, second, r, first + second, n + r, 0, fired);
        lemma_fires_later(boundaries, first, second, r + 1, one.1);
        let rest = fires(boundaries, second, r + 1, one.1).0;
        assert(later(one.0 + rest, n) =~= later(one.0, n) + later(rest, n));
    } else {
        assert(later(Seq::empty(), n) =~= Seq::empty());
    }
}

proof fn lemma_fires_parted(
    boundaries: Seq<BoundaryDefinition>,
    first: Seq<EventRow>,
    second: Seq<EventRow>,
    r: int,
    fired: Seq<Seq<char>>,
)
    requires
        0 <= r <= first.len(),
        first.len() + second.len() <= usize::MAX,
    ensures
        ({
            let whole = fires(boundaries, first + second, r, fired);
            let one = fires(boundaries, first, r, fired);
            let two = fires(boundaries, second, 0, one.1);
            &&& whole.0 == one.0 + later(two.0, first.len() as int)
            &&& whole.1 == two.1
        }),
    decreases first.len() - r,
{
    if r < first.len() {
        let now = fired_by(boundaries, first, r, 0, fired);
        lemma_fired_by_event(boundaries, first, r, first + second, r, 0, fired);
        assert(later(now.0, 0) =~= now.0);
        lemma_fires_parted(boundaries, first, second, r + 1, now.1);
        let rest = fires(boundaries, first, r + 1, now.1);
        let two = later(fires(boundaries, second, 0, rest.1).0, first.len() as int);
        assert(now.0 + (rest.0 + two) =~= (now.0 + rest.0) + two);
    } else {
        lemma_fires_later(boundaries, first, second, 0, fired);
        let two = later(fires(boundaries, second, 0, fired).0, first.len() as int);
        assert(Seq::<Fired>::empty() + two =~= two);
    }
}

/// It makes no difference where the events of an attempt are parted into batches:
/// evaluating one batch after the other, each knowing what fired before, fires
/// what evaluating all of them at once does.
pub proof fn law_evaluation_does_not_depend_on_batches(
    boundaries: Seq<BoundaryDefinition>,
    first: Seq<EventRow>,
    second: Seq<EventRow>,
    fired: Seq<Seq<char>>,
)
    requires
        first.len() + second.len() <= usize::MAX,
    ensures
        ({
            let whole = fires(boundaries, first + second, 0, fired);
            let one = fires(boundaries, first, 0, fired);
            let two = fires(boundaries, second, 0, one.1);
            &&& whole.0 == one.0 + later(two.0, first.len() as int)
            &&& whole.1 == two.1
        }),
{
    lemma_fires_parted(boundaries, first, second, 0, fired);
}

/// The identifiers of the boundaries that fired, at some positions.
pub open spec fn fired_names(
    boundaries: Seq<BoundaryDefinition>,
    fired: Seq<Fired>,
    at: Seq<int>,
) -> Seq<Seq<char>> {
    at.map_values(|i: int| boundaries[fired[i].boundary as int].boundary_id@)
}

proof fn lemma_recorded(
    known: Seq<Seq<char>>,
    boundaries: Seq<BoundaryDefinition>,
    fired: Seq<Fired>,
    i: int,
)
    requires
        0 <= i,
        known.no_duplicates(),
    ensures
        (known + fired_names(boundaries, fired, recorded(known, boundaries, fired, i))).no_duplicates(),
    decreases fired.len() - i,
{
    let at = recorded(known, boundaries, fired, i);
    if i < fired.len() {
        let id = boundaries[fired[i].boundary as int].boundary_id@;
        if known.contains(id) {
            lemma_recorded(known, boundaries, fired, i + 1);
        } else {
            lemma_recorded(known.push(id), boundaries, fired, i + 1);
            let rest = recorded(known.push(id), boundaries, fired, i + 1);
            assert(known + fired_names(boundaries, fired, at) =~= known.push(id) + fired_names(
                boundaries,
                fired,
                rest,
            ));
        }
    } else {
        assert(known + fired_names(boundaries, fired, at) =~= known);
    }
}

proof fn lemma_decided_appended(
    before: Seq<StoredDecision>,
    after: Seq<StoredDecision>,
    id: Seq<char>,
    attempt: u32,
    i: int,
)
    requires
        0 <= i <= before.len() <= after.len(),
        after.take(before.len() as int) == before,
    ensures
        decided_from(after, id, attempt, i) == decided_from(before, id, attempt, i) + decided_from(
            after,
            id,
            attempt,
            before.len() as int,
        ),
    decreases before.len() - i,
{
    let rest = decided_from(after, id, attempt, before.len() as int);
    if i < before.len() {
        assert(after.take(before.len() as int)[i] == after[i]);
        lemma_decided_appended(before, after, id, attempt, i + 1);
        let own = decided_from(before, id, attempt, i + 1);
        let name = before[i].decision.boundary.boundary_id@;
        assert(seq![name] + (own + rest) =~= (seq![name] + own) + rest);
    } else {
        assert(Seq::<Seq<char>>::empty() + rest =~= rest);
    }
}

proof fn lemma_decided_new(
    after: Seq<StoredDecision>,
    n: int,
    names: Seq<Seq<char>>,
    id: Seq<char>,
    attempt: u32,
    k: int,
)
    requires
        0 <= n,
        0 <= k <= names.len(),
        after.len() == n + names.len(),
        forall|j: int|
            0 <= j < names.len() ==> (#[trigger] after[n + j]).decision.experiment_id@ == id
                && after[n + j].decision.attempt == attempt
                && after[n + j].decision.boundary.boundary_id@ == names[j],
    ensures
        decided_from(after, id, attempt, n + k) == names.skip(k),
    decreases names.len() - k,
{
    if k < names.len() {
        lemma_decided_new(after, n, names, id, attempt, k + 1);
        assert(after[n + k].decision.boundary.boundary_id@ == names[k]);
        assert(names.skip(k) =~= seq![names[k]] + names.skip(k + 1));
    } else {
        assert(names.skip(k) =~= Seq::empty());
    }
}

/// No boundary is decided twice in an attempt: where `before` holds none twice,
/// neither do the decisions after another batch was recorded, and none of those
/// before is lost. `Store::persist_batch` leads from `before` to `after` so.
pub proof fn law_a_boundary_is_decided_once(
    before: Seq<StoredDecision>,
    after: Seq<StoredDecision>,
    workspace: Seq<char>,
    run: ExperimentRun,
    attempt: u32,
    fired: Seq<Fired>,
    rows: Seq<EventRow>,
    namings: Seq<Naming>,
    now_ms: u64,
)
    requires
        decided_from(before, run.experiment_id@, attempt, 0).no_duplicates(),
        ({
            let known = decided_from(before, run.experiment_id@, attempt, 0);
            let at = recorded(known, run.decision_boundaries@, fired, 0);
            let n = before.len() as int;
            &&& after.len() == n + at.len()
            &&& after.take(n) == before
            &&& forall|k: int|
                0 <= k < at.len() ==> decides(
                    #[trigger] after[n + k],
                    workspace,
                    run,
                    attempt,
                    fired[at[k]],
                    rows,
                    namings[at[k]].hex@,
                    now_ms,
                )
        }),
    ensures
        decided_from(after, run.experiment_id@, attempt, 0).no_duplicates(),
        ({
            let known = decided_from(before, run.experiment_id@, attempt, 0);
            let at = recorded(known, run.decision_boundaries@, fired, 0);
            decided_from(after, run.experiment_id@, attempt, 0) == known + fired_names(
                run.decision_boundaries@,
                fired,
                at,
            )
        }),
{
    let id = run.experiment_id@;
    let known = decided_from(before, id, attempt, 0);
    let at = recorded(known, run.decision_boundaries@, fired, 0);
    let names = fired_names(run.decision_boundaries@, fired, at);
    let n = before.len() as int;
    assert forall|j: int| 0 <= j < names.len() implies (#[trigger] after[n
        + j]).decision.experiment_id@ == id && after[n + j].decision.attempt == attempt
        && after[n + j].decision.boundary.boundary_id@ == names[j] by {
        assert(decides(
            after[n + j],
            workspace,
            run,
            attempt,
            fired[at[j]],
            rows,
            namings[at[j]].hex@,
            now_ms,
        ));
    }
    lemma_decided_new(after, n, names, id, attempt, 0);
    assert(names.skip(0) =~= names);
    lemma_decided_appended(before, after, id, attempt, 0);
    lemma_recorded(known, run.decision_boundaries@, fired, 0);
}

// ---------------------------------------------------------------------------
// What is decided in the end
// ---------------------------------------------------------------------------

/// Whether no two boundaries have the same identifier.
pub open spec fn distinctly_named(boundaries: Seq<BoundaryDefinition>) -> bool {
    forall|a: int, b: int|
        0 <= a < boundaries.len() && 0 <= b < boundaries.len() && (
        #[trigger] boundaries[a]).boundary_id@ == (#[trigger] boundaries[b]).boundary_id@ ==> a == b
}

proof fn lemma_not_repeated(
    boundaries: Seq<BoundaryDefinition>,
    profiles: Seq<VerificationProfile>,
    rules: Seq<Option<String>>,
    i: int,
    k: int,
)
    requires
        0 <= i <= k < boundaries.len(),
        boundaries_refusal(boundaries, profiles, rules, i) is None,
    ensures
        !repeated(boundaries, k),
    decreases k - i,
{
    if i < k {
        lemma_not_repeated(boundaries, profiles, rules, i + 1, k);
    }
}

/// Boundaries that may be declared have distinct identifiers.
pub proof fn law_declared_boundaries_are_distinct(
    boundaries: Seq<BoundaryDefinition>,
    profiles: Seq<VerificationProfile>,
    rules: Seq<Option<String>>,
    max_planner_wakeups: u32,
    limits: BoundaryLimits,
)
    requires
        declaration_refusal(boundaries, profiles, rules, max_planner_wakeups, limits) is None,
    ensures
        distinctly_named(boundaries),
{
    assert forall|a: int, b: int|
        0 <= a < boundaries.len() && 0 <= b < boundaries.len() && (
        #[trigger] boundaries[a]).boundary_id@ == (
        #[trigger] boundaries[b]).boundary_id@ implies a == b by {
        lemma_not_repeated(boundaries, profiles, rules, 0, a);
        lemma_not_repeated(boundaries, profiles, rules, 0, b);
    }
}

/// Whether a recorded event of an attempt qualifies for a boundary.
pub open spec fn event_qualifies(
    boundaries: Seq<BoundaryDefinition>,
    e: StoredEvent,
    workspace: Seq<char>,
    id: Seq<char>,
    attempt: u32,
    b: int,
) -> bool {
    &&& experiment_events::belongs(e, workspace, id)
    &&& e.event.attempt == attempt
    &&& match (e.event.event, boundaries[b].condition) {
        (
            ExperimentEventData::Metric { name, value, tags, .. },
            ExperimentBoundary::MetricThreshold {
                metric,
                tags: selector,
                comparison,
                value: threshold,
            },
        ) => experiment_events::finite(value) && metric@ == name@ && tags_selected(
            selector@,
            tags@,
        ) && holds(comparison, value, threshold),
        _ => false,
    }
}

/// Whether an event is the one of lowest arrival that qualifies for a boundary,
/// among those that arrived up to `upto`.
pub open spec fn first_qualifying(
    boundaries: Seq<BoundaryDefinition>,
    events: Seq<StoredEvent>,
    workspace: Seq<char>,
    id: Seq<char>,
    attempt: u32,
    upto: i64,
    b: int,
    i: int,
) -> bool {
    &&& 0 <= i < events.len()
    &&& event_qualifies(boundaries, events[i], workspace, id, attempt, b)
    &&& events[i].event.arrival_sequence <= upto
    &&& forall|j: int|
        0 <= j < events.len() && #[trigger] event_qualifies(
            boundaries,
            events[j],
            workspace,
            id,
            attempt,
            b,
        ) && events[j].event.arrival_sequence <= upto ==> events[i].event.arrival_sequence
            <= events[j].event.arrival_sequence
}

/// Whether a decision is on a boundary in an attempt.
pub open spec fn decision_on(d: StoredDecision, id: Seq<char>, attempt: u32, boundary: Seq<char>) -> bool {
    &&& d.decision.experiment_id@ == id
    &&& d.decision.attempt == attempt
    &&& d.decision.boundary.boundary_id@ == boundary
}

/// Whether decisions are exactly those that the events of an attempt call for
/// which arrived up to `upto`: no boundary is decided twice, one is decided where
/// an event qualifies, and the decision names the qualifying event of lowest
/// arrival.
pub open spec fn decided_exactly(
    boundaries: Seq<BoundaryDefinition>,
    events: Seq<StoredEvent>,
    decisions: Seq<StoredDecision>,
    workspace: Seq<char>,
    id: Seq<char>,
    attempt: u32,
    upto: i64,
) -> bool {
    &&& decided_from(decisions, id, attempt, 0).no_duplicates()
    &&& forall|i: int, b: int|
        0 <= i < events.len() && 0 <= b < boundaries.len() && #[trigger] event_qualifies(
            boundaries,
            events[i],
            workspace,
            id,
            attempt,
            b,
        ) && events[i].event.arrival_sequence <= upto ==> decided_from(
            decisions,
            id,
            attempt,
            0,
        ).contains(boundaries[b].boundary_id@)
    &&& forall|d: int, b: int|
        0 <= d < decisions.len() && 0 <= b < boundaries.len() && #[trigger] decision_on(
            decisions[d],
            id,
            attempt,
            boundaries[b].boundary_id@,
        ) ==> exists|i: int|
            #[trigger] first_qualifying(
                boundaries,
                events,
                workspace,
                id,
                attempt,
                upto,
                b,
                i,
            ) && decisions[d].decision.triggering_event_sequence
                == events[i].event.arrival_sequence
}

proof fn lemma_row_qualifies(
    boundaries: Seq<BoundaryDefinition>,
    row: EventRow,
    e: StoredEvent,
    workspace: Seq<char>,
    id: Seq<char>,
    attempt: u32,
    b: int,
)
    requires
        is_row(row, e),
        experiment_events::belongs(e, workspace, id),
        e.event.attempt == attempt,
    ensures
        qualifies(boundaries, row, b) == event_qualifies(
            boundaries,
            e,
            workspace,
            id,
            attempt,
            b,
        ),
{
}

proof fn lemma_fired_by_only(
    boundaries: Seq<BoundaryDefinition>,
    rows: Seq<EventRow>,
    r: int,
    b: int,
    fired: Seq<Seq<char>>,
    t: Seq<char>,
)
    requires
        0 <= b,
        boundaries.len() <= usize::MAX,
        fired_by(boundaries, rows, r, b, fired).1.contains(t),
        !fired.contains(t),
    ensures
        exists|k: int|
            0 <= k < fired_by(boundaries, rows, r, b, fired).0.len() && boundaries[(
            #[trigger] fired_by(boundaries, rows, r, b, fired).0[k]).boundary as int].boundary_id@
                == t,
    decreases boundaries.len() - b,
{
    if b < boundaries.len() {
        let id = boundaries[b].boundary_id@;
        let one = fired_by(boundaries, rows, r, b, fired);
        if !fired.contains(id) && qualifies(boundaries, rows[r], b) {
            let rest = fired_by(boundaries, rows, r, b + 1, fired.push(id));
            if t == id {
                assert(one.0[0].boundary == b);
            } else {
                text::lemma_push_contains(fired, id, t);
                lemma_fired_by_only(boundaries, rows, r, b + 1, fired.push(id), t);
                let k = choose|k: int|
                    0 <= k < rest.0.len() && boundaries[(
                    #[trigger] rest.0[k]).boundary as int].boundary_id@ == t;
                assert(one.0[k + 1] == rest.0[k]);
            }
        } else {
            lemma_fired_by_only(boundaries, rows, r, b + 1, fired, t);
        }
    }
}

proof fn lemma_fires_only(
    boundaries: Seq<BoundaryDefinition>,
    rows: Seq<EventRow>,
    r: int,
    fired: Seq<Seq<char>>,
    t: Seq<char>,
)
    requires
        0 <= r,
        boundaries.len() <= usize::MAX,
        fires(boundaries, rows, r, fired).1.contains(t),
        !fired.contains(t),
    ensures
        exists|k: int|
            0 <= k < fires(boundaries, rows, r, fired).0.len() && boundaries[(
            #[trigger] fires(boundaries, rows, r, fired).0[k]).boundary as int].boundary_id@ == t,
    decreases rows.len() - r,
{
    if r < rows.len() {
        let one = fired_by(boundaries, rows, r, 0, fired);
        let rest = fires(boundaries, rows, r + 1, one.1);
        let all = fires(boundaries, rows, r, fired);
        if one.1.contains(t) {
            lemma_fired_by_only(boundaries, rows, r, 0, fired, t);
            let k = choose|k: int|
                0 <= k < one.0.len() && boundaries[(
                #[trigger] one.0[k]).boundary as int].boundary_id@ == t;
            assert(all.0[k] == one.0[k]);
        } else {
            lemma_fires_only(boundaries, rows, r + 1, one.1, t);
            let k = choose|k: int|
                0 <= k < rest.0.len() && boundaries[(
                #[trigger] rest.0[k]).boundary as int].boundary_id@ == t;
            assert(all.0[one.0.len() + k] == rest.0[k]);
        }
    }
}

proof fn lemma_fires_first(
    boundaries: Seq<BoundaryDefinition>,
    rows: Seq<EventRow>,
    r: int,
    fired: Seq<Seq<char>>,
    k: int,
    q: int,
)
    requires
        0 <= r,
        boundaries.len() <= usize::MAX,
        rows.len() <= usize::MAX,
        0 <= k < fires(boundaries, rows, r, fired).0.len(),
        r <= q < fires(boundaries, rows, r, fired).0[k].row,
    ensures
        !qualifies(boundaries, rows[q], fires(boundaries, rows, r, fired).0[k].boundary as int),
    decreases rows.len() - r,
{
    if r < rows.len() {
        let one = fired_by(boundaries, rows, r, 0, fired);
        let rest = fires(boundaries, rows, r + 1, one.1);
        let all = fires(boundaries, rows, r, fired);
        lemma_fired_by(boundaries, rows, r, 0, fired);
        lemma_fires(boundaries, rows, r + 1, one.1);
        if k < one.0.len() {
            assert(all.0[k] == one.0[k]);
        } else {
            let m = k - one.0.len();
            assert(all.0[k] == rest.0[m]);
            let b = rest.0[m].boundary as int;
            if q == r {
                assert(!one.1.contains(boundaries[b].boundary_id@));
            } else {
                lemma_fires_first(boundaries, rows, r + 1, one.1, m, q);
            }
        }
    }
}

proof fn lemma_fired_by_names(
    boundaries: Seq<BoundaryDefinition>,
    rows: Seq<EventRow>,
    r: int,
    b: int,
    fired: Seq<Seq<char>>,
)
    requires
        0 <= b,
        boundaries.len() <= usize::MAX,
    ensures
        ({
            let one = fired_by(boundaries, rows, r, b, fired);
            one.1 == fired + one.0.map_values(
                |f: Fired| boundaries[f.boundary as int].boundary_id@,
            )
        }),
    decreases boundaries.len() - b,
{
    let names = |f: Fired| boundaries[f.boundary as int].boundary_id@;
    let one = fired_by(boundaries, rows, r, b, fired);
    if b < boundaries.len() {
        let id = boundaries[b].boundary_id@;
        if !fired.contains(id) && qualifies(boundaries, rows[r], b) {
            lemma_fired_by_names(boundaries, rows, r, b + 1, fired.push(id));
        } else {
            lemma_fired_by_names(boundaries, rows, r, b + 1, fired);
        }
    }
    assert(one.1 =~= fired + one.0.map_values(names));
}

proof fn lemma_fires_names(
    boundaries: Seq<BoundaryDefinition>,
    rows: Seq<EventRow>,
    r: int,
    fired: Seq<Seq<char>>,
)
    requires
        0 <= r,
        boundaries.len() <= usize::MAX,
    ensures
        ({
            let all = fires(boundaries, rows, r, fired);
            all.1 == fired + all.0.map_values(
                |f: Fired| boundaries[f.boundary as int].boundary_id@,
            )
        }),
    decreases rows.len() - r,
{
    let names = |f: Fired| boundaries[f.boundary as int].boundary_id@;
    let all = fires(boundaries, rows, r, fired);
    if r < rows.len() {
        let one = fired_by(boundaries, rows, r, 0, fired);
        lemma_fired_by_names(boundaries, rows, r, 0, fired);
        lemma_fires_names(boundaries, rows, r + 1, one.1);
    }
    assert(all.1 =~= fired + all.0.map_values(names));
}

/// A boundary that was not discharged yet fires if and only if an event qualifies
/// for it, and on the first one that does.
pub proof fn law_a_boundary_fires_on_the_first_qualifying_event(
    boundaries: Seq<BoundaryDefinition>,
    rows: Seq<EventRow>,
    fired: Seq<Seq<char>>,
    b: int,
)
    requires
        boundaries.len() <= usize::MAX,
        rows.len() <= usize::MAX,
        distinctly_named(boundaries),
        0 <= b < boundaries.len(),
        !fired.contains(boundaries[b].boundary_id@),
    ensures
        ({
            let all = fires(boundaries, rows, 0, fired).0;
            &&& (exists|k: int| 0 <= k < all.len() && (#[trigger] all[k]).boundary == b) <==> (
            exists|q: int| 0 <= q < rows.len() && qualifies(boundaries, #[trigger] rows[q], b))
            &&& forall|k: int|
                0 <= k < all.len() && (#[trigger] all[k]).boundary == b ==> {
                    &&& 0 <= all[k].row < rows.len()
                    &&& qualifies(boundaries, rows[all[k].row as int], b)
                    &&& forall|q: int|
                        0 <= q < all[k].row ==> !qualifies(boundaries, #[trigger] rows[q], b)
                }
        }),
{
    let all = fires(boundaries, rows, 0, fired);
    lemma_fires(boundaries, rows, 0, fired);
    assert forall|k: int| 0 <= k < all.0.len() && (#[trigger] all.0[k]).boundary == b implies {
        &&& 0 <= all.0[k].row < rows.len()
        &&& qualifies(boundaries, rows[all.0[k].row as int], b)
        &&& forall|q: int| 0 <= q < all.0[k].row ==> !qualifies(boundaries, #[trigger] rows[q], b)
    } by {
        assert forall|q: int| 0 <= q < all.0[k].row implies !qualifies(
            boundaries,
            #[trigger] rows[q],
            b,
        ) by {
            lemma_fires_first(boundaries, rows, 0, fired, k, q);
        }
    }
    if exists|q: int| 0 <= q < rows.len() && qualifies(boundaries, #[trigger] rows[q], b) {
        let t = boundaries[b].boundary_id@;
        assert(all.1.contains(t));
        lemma_fires_only(boundaries, rows, 0, fired, t);
        let k = choose|k: int|
            0 <= k < all.0.len() && boundaries[(
            #[trigger] all.0[k]).boundary as int].boundary_id@ == t;
        assert(all.0[k].boundary == b);
    }
}

proof fn lemma_all_recorded(
    known: Seq<Seq<char>>,
    boundaries: Seq<BoundaryDefinition>,
    fired: Seq<Fired>,
    i: int,
)
    requires
        0 <= i <= fired.len(),
        forall|k: int|
            i <= k < fired.len() ==> !known.contains(
                boundaries[(#[trigger] fired[k]).boundary as int].boundary_id@,
            ),
        forall|j: int, k: int|
            i <= j < k < fired.len() ==> boundaries[(
            #[trigger] fired[j]).boundary as int].boundary_id@ != boundaries[(
            #[trigger] fired[k]).boundary as int].boundary_id@,
    ensures
        recorded(known, boundaries, fired, i) == Seq::new(
            (fired.len() - i) as nat,
            |k: int| i + k,
        ),
    decreases fired.len() - i,
{
    if i < fired.len() {
        let id = boundaries[fired[i].boundary as int].boundary_id@;
        assert forall|k: int| i + 1 <= k < fired.len() implies !known.push(id).contains(
            boundaries[(#[trigger] fired[k]).boundary as int].boundary_id@,
        ) by {
            text::lemma_push_contains(
                known,
                id,
                boundaries[fired[k].boundary as int].boundary_id@,
            );
        }
        lemma_all_recorded(known.push(id), boundaries, fired, i + 1);
        assert(recorded(known, boundaries, fired, i) =~= Seq::new(
            (fired.len() - i) as nat,
            |k: int| i + k,
        ));
    } else {
        assert(recorded(known, boundaries, fired, i) =~= Seq::new(0, |k: int| i + k));
    }
}

proof fn lemma_decided_has(all: Seq<StoredDecision>, id: Seq<char>, attempt: u32, i: int, t: Seq<char>)
    requires
        0 <= i,
    ensures
        decided_from(all, id, attempt, i).contains(t) <==> exists|d: int|
            i <= d < all.len() && decision_on(#[trigger] all[d], id, attempt, t),
    decreases all.len() - i,
{
    if i < all.len() {
        lemma_decided_has(all, id, attempt, i + 1, t);
        let rest = decided_from(all, id, attempt, i + 1);
        let here = decided_from(all, id, attempt, i);
        if decision_on(all[i], id, attempt, t) {
            assert(here[0] == t);
        } else if rest.contains(t) {
            let m = choose|m: int| 0 <= m < rest.len() && rest[m] == t;
            if here.len() == rest.len() {
                assert(here[m] == t);
            } else {
                assert(here[m + 1] == t);
            }
            assert(here.contains(t));
        } else if here.contains(t) {
            let m = choose|m: int| 0 <= m < here.len() && here[m] == t;
            if here.len() == rest.len() {
                assert(rest[m] == t);
            } else {
                assert(m > 0);
                assert(rest[m - 1] == t);
            }
        }
    } else {
        assert(!decided_from(all, id, attempt, i).contains(t));
    }
}

proof fn lemma_next_from(
    events: Seq<StoredEvent>,
    workspace: Seq<char>,
    id: Seq<char>,
    attempt: u32,
    after: i64,
    left: int,
    i: int,
)
    requires
        0 <= i,
    ensures
        ({
            let at = next_from(events, workspace, id, attempt, after, left, i);
            &&& forall|k: int|
                0 <= k < at.len() ==> i <= #[trigger] at[k] < events.len() && is_next(
                    events[at[k]],
                    workspace,
                    id,
                    attempt,
                    after,
                )
            &&& forall|j: int, k: int|
                0 <= j < k < at.len() ==> #[trigger] at[j] < #[trigger] at[k]
            &&& at.len() <= left || at.len() == 0
            &&& forall|j: int|
                i <= j < events.len() && #[trigger] is_next(
                    events[j],
                    workspace,
                    id,
                    attempt,
                    after,
                ) && at.len() < left ==> at.contains(j)
            &&& forall|j: int|
                i <= j < events.len() && #[trigger] is_next(
                    events[j],
                    workspace,
                    id,
                    attempt,
                    after,
                ) && left > 0 ==> at.contains(j) || (at.len() > 0 && j > at.last())
        }),
    decreases events.len() - i,
{
    let at = next_from(events, workspace, id, attempt, after, left, i);
    if i < events.len() && left > 0 {
        if is_next(events[i], workspace, id, attempt, after) {
            lemma_next_from(events, workspace, id, attempt, after, left - 1, i + 1);
            let rest = next_from(events, workspace, id, attempt, after, left - 1, i + 1);
            assert(at == seq![i] + rest);
            assert forall|k: int| 0 <= k < at.len() implies i <= #[trigger] at[k] < events.len()
                && is_next(events[at[k]], workspace, id, attempt, after) by {
                if k > 0 {
                    assert(at[k] == rest[k - 1]);
                }
            }
            assert forall|j: int, k: int| 0 <= j < k < at.len() implies #[trigger] at[j]
                < #[trigger] at[k] by {
                assert(at[k] == rest[k - 1]);
                if j > 0 {
                    assert(at[j] == rest[j - 1]);
                }
            }
            assert forall|j: int|
                i <= j < events.len() && #[trigger] is_next(
                    events[j],
                    workspace,
                    id,
                    attempt,
                    after,
                ) && at.len() < left implies at.contains(j) by {
                if j == i {
                    assert(at[0] == i);
                } else {
                    assert(rest.contains(j));
                    let m = choose|m: int| 0 <= m < rest.len() && rest[m] == j;
                    assert(at[m + 1] == j);
                }
            }
            assert forall|j: int|
                i <= j < events.len() && #[trigger] is_next(
                    events[j],
                    workspace,
                    id,
                    attempt,
                    after,
                ) implies at.contains(j) || (at.len() > 0 && j > at.last()) by {
                if j == i {
                    assert(at[0] == i);
                } else if left - 1 > 0 {
                    if rest.contains(j) {
                        let m = choose|m: int| 0 <= m < rest.len() && rest[m] == j;
                        assert(at[m + 1] == j);
                    } else {
                        assert(at.last() == rest.last());
                    }
                } else {
                    assert(rest.len() == 0);
                    assert(at.last() == i);
                }
            }
        } else {
            lemma_next_from(events, workspace, id, attempt, after, left, i + 1);
            let rest = next_from(events, workspace, id, attempt, after, left, i + 1);
            assert(at == rest);
            assert forall|j: int|
                i <= j < events.len() && #[trigger] is_next(
                    events[j],
                    workspace,
                    id,
                    attempt,
                    after,
                ) implies at.contains(j) || (at.len() > 0 && j > at.last()) by {
                assert(j != i);
            }
        }
    }
}

/// Evaluating one batch leaves exactly the decisions that the events so far call
/// for. `events` are those that were recorded, in the order of their arrival;
/// `Store::evaluate_next` gives the rows that follow the cursor `after` and what
/// fires in them, and `Store::persist_batch` leads from the decisions `before` to
/// `after_it` and moves the cursor to the last row. What is discharged by then is
/// what is decided, so that the next batch may go on from it.
pub proof fn law_decisions_follow_the_events(
    events: Seq<StoredEvent>,
    before: Seq<StoredDecision>,
    after_it: Seq<StoredDecision>,
    workspace: Seq<char>,
    run: ExperimentRun,
    attempt: u32,
    after: i64,
    rows: Seq<EventRow>,
    namings: Seq<Naming>,
    now_ms: u64,
)
    requires
        experiment_events::arrived_in_order(events),
        distinctly_named(run.decision_boundaries@),
        run.decision_boundaries@.len() <= usize::MAX,
        rows.len() <= usize::MAX,
        after >= 0,
        decided_exactly(
            run.decision_boundaries@,
            events,
            before,
            workspace,
            run.experiment_id@,
            attempt,
            after,
        ),
        ({
            let at = next_from(
                events,
                workspace,
                run.experiment_id@,
                attempt,
                after,
                EVALUATION_BATCH_SIZE as int,
                0,
            );
            let known = decided_from(before, run.experiment_id@, attempt, 0);
            let fired = fires(run.decision_boundaries@, rows, 0, known).0;
            let noted = recorded(known, run.decision_boundaries@, fired, 0);
            let n = before.len() as int;
            &&& rows.len() == at.len() > 0
            &&& forall|k: int| 0 <= k < at.len() ==> is_row(#[trigger] rows[k], events[at[k]])
            &&& after_it.len() == n + noted.len()
            &&& after_it.take(n) == before
            &&& forall|k: int|
                0 <= k < noted.len() ==> decides(
                    #[trigger] after_it[n + k],
                    workspace,
                    run,
                    attempt,
                    fired[noted[k]],
                    rows,
                    namings[noted[k]].hex@,
                    now_ms,
                )
        }),
    ensures
        decided_exactly(
            run.decision_boundaries@,
            events,
            after_it,
            workspace,
            run.experiment_id@,
            attempt,
            rows.last().arrival_sequence,
        ),
        decided_from(after_it, run.experiment_id@, attempt, 0) == fires(
            run.decision_boundaries@,
            rows,
            0,
            decided_from(before, run.experiment_id@, attempt, 0),
        ).1,
{
    let boundaries = run.decision_boundaries@;
    let id = run.experiment_id@;
    let left = EVALUATION_BATCH_SIZE as int;
    let at = next_from(events, workspace, id, attempt, after, left, 0);
    let known = decided_from(before, id, attempt, 0);
    let fired = fires(boundaries, rows, 0, known).0;
    let noted = recorded(known, boundaries, fired, 0);
    let n = before.len() as int;
    let upto = rows.last().arrival_sequence;
    lemma_next_from(events, workspace, id, attempt, after, left, 0);
    lemma_fires(boundaries, rows, 0, known);
    lemma_all_recorded(known, boundaries, fired, 0);
    assert(noted.len() == fired.len());
    assert(is_row(rows[rows.len() - 1], events[at[at.len() - 1]]));
    assert(upto == at.last() + 1);
    assert forall|k: int| 0 <= k < fired.len() implies decides(
        #[trigger] after_it[n + k],
        workspace,
        run,
        attempt,
        fired[k],
        rows,
        namings[k].hex@,
        now_ms,
    ) by {
        assert(noted[k] == k);
    }
    assert forall|r: int| 0 <= r < rows.len() implies (#[trigger] rows[r]).arrival_sequence == at[r]
        + 1 && after < rows[r].arrival_sequence <= upto by {
        assert(is_row(rows[r], events[at[r]]));
        assert(is_next(events[at[r]], workspace, id, attempt, after));
        if r < at.len() - 1 {
            assert(at[r] < at[at.len() - 1]);
        }
    }
    assert forall|r: int, b: int| 0 <= r < rows.len() implies #[trigger] qualifies(
        boundaries,
        rows[r],
        b,
    ) == event_qualifies(boundaries, events[at[r]], workspace, id, attempt, b) by {
        assert(is_row(rows[r], events[at[r]]));
        assert(is_next(events[at[r]], workspace, id, attempt, after));
        lemma_row_qualifies(boundaries, rows[r], events[at[r]], workspace, id, attempt, b);
    }
    // No boundary is decided twice.
    law_a_boundary_is_decided_once(
        before,
        after_it,
        workspace,
        run,
        attempt,
        fired,
        rows,
        namings,
        now_ms,
    );
    lemma_fires_names(boundaries, rows, 0, known);
    assert(fired_names(boundaries, fired, noted) =~= fired.map_values(
        |f: Fired| boundaries[f.boundary as int].boundary_id@,
    ));
    // A boundary is decided where an event qualifies.
    assert forall|i: int, b: int|
        0 <= i < events.len() && 0 <= b < boundaries.len() && #[trigger] event_qualifies(
            boundaries,
            events[i],
            workspace,
            id,
            attempt,
            b,
        ) && events[i].event.arrival_sequence <= upto implies decided_from(
        after_it,
        id,
        attempt,
        0,
    ).contains(boundaries[b].boundary_id@) by {
        let t = boundaries[b].boundary_id@;
        lemma_decided_has(after_it, id, attempt, 0, t);
        lemma_decided_has(before, id, attempt, 0, t);
        if known.contains(t) {
            let d = choose|d: int|
                0 <= d < before.len() && decision_on(#[trigger] before[d], id, attempt, t);
            assert(after_it.take(n)[d] == after_it[d]);
            assert(decision_on(after_it[d], id, attempt, t));
        } else {
            assert(events[i].event.arrival_sequence > after);
            assert(is_next(events[i], workspace, id, attempt, after));
            assert(at.contains(i));
            let r = choose|r: int| 0 <= r < at.len() && at[r] == i;
            assert(qualifies(boundaries, rows[r], b));
            law_a_boundary_fires_on_the_first_qualifying_event(boundaries, rows, known, b);
            let k = choose|k: int| 0 <= k < fired.len() && (#[trigger] fired[k]).boundary == b;
            assert(decides(
                after_it[n + k],
                workspace,
                run,
                attempt,
                fired[k],
                rows,
                namings[k].hex@,
                now_ms,
            ));
            assert(decision_on(after_it[n + k], id, attempt, t));
        }
    }
    // A decision names the first event that qualifies.
    assert forall|d: int, b: int|
        0 <= d < after_it.len() && 0 <= b < boundaries.len() && #[trigger] decision_on(
            after_it[d],
            id,
            attempt,
            boundaries[b].boundary_id@,
        ) implies exists|i: int|
        #[trigger] first_qualifying(boundaries, events, workspace, id, attempt, upto, b, i)
            && after_it[d].decision.triggering_event_sequence
            == events[i].event.arrival_sequence by {
        let t = boundaries[b].boundary_id@;
        if d < n {
            assert(after_it.take(n)[d] == after_it[d]);
            assert(decision_on(before[d], id, attempt, t));
            let i = choose|i: int|
                #[trigger] first_qualifying(
                    boundaries,
                    events,
                    workspace,
                    id,
                    attempt,
                    after,
                    b,
                    i,
                ) && before[d].decision.triggering_event_sequence
                    == events[i].event.arrival_sequence;
            assert(rows[0].arrival_sequence > after);
            assert(first_qualifying(boundaries, events, workspace, id, attempt, upto, b, i));
        } else {
            let k = d - n;
            assert(decides(
                after_it[n + k],
                workspace,
                run,
                attempt,
                fired[k],
                rows,
                namings[k].hex@,
                now_ms,
            ));
            assert(fired[k].boundary == b);
            assert(!known.contains(t));
            let r = fired[k].row as int;
            let i = at[r];
            law_a_boundary_fires_on_the_first_qualifying_event(boundaries, rows, known, b);
            assert(qualifies(boundaries, rows[r], b));
            assert forall|j: int|
                0 <= j < events.len() && #[trigger] event_qualifies(
                    boundaries,
                    events[j],
                    workspace,
                    id,
                    attempt,
                    b,
                ) && events[j].event.arrival_sequence <= upto
                implies events[i].event.arrival_sequence <= events[j].event.arrival_sequence by {
                if events[j].event.arrival_sequence > after {
                    assert(is_next(events[j], workspace, id, attempt, after));
                    assert(at.contains(j));
                    let q = choose|q: int| 0 <= q < at.len() && at[q] == j;
                    assert(qualifies(boundaries, rows[q], b));
                    if q < r {
                        assert(!qualifies(boundaries, rows[q], b));
                    } else if r < q {
                        assert(at[r] < at[q]);
                    }
                }
            }
            assert(first_qualifying(boundaries, events, workspace, id, attempt, upto, b, i));
        }
    }
}

/// Where nothing is left to evaluate, the decisions are exactly those that all
/// recorded events of the attempt call for: one for every boundary that an event
/// qualifies for, naming the one of lowest arrival, and no other.
pub proof fn law_every_boundary_is_decided_in_the_end(
    boundaries: Seq<BoundaryDefinition>,
    events: Seq<StoredEvent>,
    decisions: Seq<StoredDecision>,
    workspace: Seq<char>,
    id: Seq<char>,
    attempt: u32,
    after: i64,
)
    requires
        experiment_events::arrived_in_order(events),
        next_from(
            events,
            workspace,
            id,
            attempt,
            after,
            EVALUATION_BATCH_SIZE as int,
            0,
        ).len() == 0,
        decided_exactly(boundaries, events, decisions, workspace, id, attempt, after),
    ensures
        decided_exactly(boundaries, events, decisions, workspace, id, attempt, i64::MAX),
{
    let left = EVALUATION_BATCH_SIZE as int;
    lemma_next_from(events, workspace, id, attempt, after, left, 0);
    assert forall|i: int, b: int|
        0 <= i < events.len() && #[trigger] event_qualifies(
            boundaries,
            events[i],
            workspace,
            id,
            attempt,
            b,
        ) implies events[i].event.arrival_sequence <= after by {
        if events[i].event.arrival_sequence > after {
            assert(is_next(events[i], workspace, id, attempt, after));
        }
    }
    assert forall|d: int, b: int|
        0 <= d < decisions.len() && 0 <= b < boundaries.len() && #[trigger] decision_on(
            decisions[d],
            id,
            attempt,
            boundaries[b].boundary_id@,
        ) implies exists|i: int|
        #[trigger] first_qualifying(boundaries, events, workspace, id, attempt, i64::MAX, b, i)
            && decisions[d].decision.triggering_event_sequence
            == events[i].event.arrival_sequence by {
        let i = choose|i: int|
            #[trigger] first_qualifying(
                boundaries,
                events,
                workspace,
                id,
                attempt,
                after,
                b,
                i,
            ) && decisions[d].decision.triggering_event_sequence
                == events[i].event.arrival_sequence;
        assert(first_qualifying(boundaries, events, workspace, id, attempt, i64::MAX, b, i));
    }
}

/// Events that arrive later leave the decisions on earlier ones exact.
pub proof fn law_later_events_change_no_decision(
    boundaries: Seq<BoundaryDefinition>,
    before: Seq<StoredEvent>,
    after: Seq<StoredEvent>,
    decisions: Seq<StoredDecision>,
    workspace: Seq<char>,
    id: Seq<char>,
    attempt: u32,
    upto: i64,
)
    requires
        experiment_events::arrived_in_order(after),
        before.len() <= after.len(),
        after.take(before.len() as int) == before,
        upto <= before.len(),
        decided_exactly(boundaries, before, decisions, workspace, id, attempt, upto),
    ensures
        decided_exactly(boundaries, after, decisions, workspace, id, attempt, upto),
{
    let n = before.len() as int;
    assert forall|i: int| 0 <= i < after.len() && after[i].event.arrival_sequence <= upto implies i
        < n && #[trigger] after[i] == before[i] by {
        assert(after[i].event.arrival_sequence == i + 1);
        assert(after.take(n)[i] == after[i]);
    }
    assert forall|d: int, b: int|
        0 <= d < decisions.len() && 0 <= b < boundaries.len() && #[trigger] decision_on(
            decisions[d],
            id,
            attempt,
            boundaries[b].boundary_id@,
        ) implies exists|i: int|
        #[trigger] first_qualifying(boundaries, after, workspace, id, attempt, upto, b, i)
            && decisions[d].decision.triggering_event_sequence
            == after[i].event.arrival_sequence by {
        let i = choose|i: int|
            #[trigger] first_qualifying(
                boundaries,
                before,
                workspace,
                id,
                attempt,
                upto,
                b,
                i,
            ) && decisions[d].decision.triggering_event_sequence
                == before[i].event.arrival_sequence;
        assert(after.take(n)[i] == after[i]);
        assert forall|j: int|
            0 <= j < after.len() && #[trigger] event_qualifies(
                boundaries,
                after[j],
                workspace,
                id,
                attempt,
                b,
            ) && after[j].event.arrival_sequence <= upto implies after[i].event.arrival_sequence
            <= after[j].event.arrival_sequence by {
            assert(after[j] == before[j]);
        }
        assert(first_qualifying(boundaries, after, workspace, id, attempt, upto, b, i));
    }
}

/// Before anything of an attempt is evaluated or decided, its decisions are exact.
pub proof fn law_nothing_is_decided_beforehand(
    boundaries: Seq<BoundaryDefinition>,
    events: Seq<StoredEvent>,
    decisions: Seq<StoredDecision>,
    workspace: Seq<char>,
    id: Seq<char>,
    attempt: u32,
)
    requires
        experiment_events::arrived_in_order(events),
        decided_from(decisions, id, attempt, 0).len() == 0,
    ensures
        decided_exactly(boundaries, events, decisions, workspace, id, attempt, 0),
{
    assert forall|d: int, b: int|
        0 <= d < decisions.len() && 0 <= b < boundaries.len() && #[trigger] decision_on(
            decisions[d],
            id,
            attempt,
            boundaries[b].boundary_id@,
        ) implies false by {
        lemma_decided_has(decisions, id, attempt, 0, boundaries[b].boundary_id@);
        assert(decided_from(decisions, id, attempt, 0).contains(boundaries[b].boundary_id@));
    }
}

// ---------------------------------------------------------------------------
// Any number of evaluations
// ---------------------------------------------------------------------------

/// How far the events of an attempt were evaluated.
pub open spec fn evaluated_to(records: Store, id: Seq<char>, attempt: u32) -> i64 {
    match cursor_at(records.cursors@, id, attempt, 0) {
        Some(k) => records.cursors@[k].cursor.sequence,
        None => 0i64,
    }
}

/// Whether no event of an attempt is left to evaluate. `Store::evaluate_next` finds
/// nothing then, so that nothing is written.
pub open spec fn caught_up(records: Store, workspace: Seq<char>, id: Seq<char>, attempt: u32) -> bool {
    next_from(
        records.events@,
        workspace,
        id,
        attempt,
        evaluated_to(records, id, attempt),
        EVALUATION_BATCH_SIZE as int,
        0,
    ).len() == 0
}

/// Whether one batch of an attempt was evaluated: `rows` are what
/// `Store::evaluate_next` finds after the cursor, and `Store::persist_batch` records
/// what fires in them beyond what was decided.
pub open spec fn batch_evaluated(
    before: Store,
    after: Store,
    workspace: Seq<char>,
    run: ExperimentRun,
    attempt: u32,
    rows: Seq<EventRow>,
    namings: Seq<Naming>,
    now_ms: u64,
) -> bool {
    let id = run.experiment_id@;
    let at = next_from(
        before.events@,
        workspace,
        id,
        attempt,
        evaluated_to(before, id, attempt),
        EVALUATION_BATCH_SIZE as int,
        0,
    );
    let known = decided_from(before.decisions@, id, attempt, 0);
    let fired = fires(run.decision_boundaries@, rows, 0, known).0;
    let noted = recorded(known, run.decision_boundaries@, fired, 0);
    let n = before.decisions@.len() as int;
    &&& rows.len() == at.len() > 0
    &&& forall|k: int| 0 <= k < at.len() ==> is_row(#[trigger] rows[k], before.events@[at[k]])
    &&& moved(before.cursors@, after.cursors@, run, attempt, rows.last().arrival_sequence)
    &&& after.events == before.events
    &&& after.decisions@.len() == n + noted.len()
    &&& after.decisions@.take(n) == before.decisions@
    &&& forall|k: int|
        0 <= k < noted.len() ==> decides(
            #[trigger] after.decisions@[n + k],
            workspace,
            run,
            attempt,
            fired[noted[k]],
            rows,
            namings[noted[k]].hex@,
            now_ms,
        )
}

/// Whether events arrived, of whatever experiment, as `Store::persist` records them.
pub open spec fn events_arrived(before: Store, after: Store) -> bool {
    &&& after.decisions == before.decisions
    &&& after.cursors == before.cursors
    &&& before.events@.len() <= after.events@.len()
    &&& after.events@.take(before.events@.len() as int) == before.events@
    &&& experiment_events::arrived_in_order(after.events@)
}

/// Whether one thing happened that bears on decisions: events arrived, or a batch of
/// this attempt was evaluated, or one of another attempt or experiment, or nothing.
pub open spec fn goes_on(
    before: Store,
    after: Store,
    workspace: Seq<char>,
    run: ExperimentRun,
    attempt: u32,
) -> bool {
    ||| after == before
    ||| events_arrived(before, after)
    ||| exists|rows: Seq<EventRow>, namings: Seq<Naming>, now_ms: u64|
        #[trigger] batch_evaluated(
            before,
            after,
            workspace,
            run,
            attempt,
            rows,
            namings,
            now_ms,
        )
    ||| exists|
        there: Seq<char>,
        other: ExperimentRun,
        number: u32,
        rows: Seq<EventRow>,
        namings: Seq<Naming>,
        now_ms: u64,
    |
        (other.experiment_id@ != run.experiment_id@ || number != attempt)
            && #[trigger] batch_evaluated(
            before,
            after,
            there,
            other,
            number,
            rows,
            namings,
            now_ms,
        )
}

/// What every evaluation keeps.
spec fn in_step(records: Store, workspace: Seq<char>, run: ExperimentRun, attempt: u32) -> bool {
    let upto = evaluated_to(records, run.experiment_id@, attempt);
    &&& experiment_events::arrived_in_order(records.events@)
    &&& 0 <= upto <= records.events@.len()
    &&& decided_exactly(
        run.decision_boundaries@,
        records.events@,
        records.decisions@,
        workspace,
        run.experiment_id@,
        attempt,
        upto,
    )
}

proof fn lemma_cursor_found(all: Seq<StoredCursor>, id: Seq<char>, attempt: u32, i: int)
    requires
        0 <= i,
    ensures
        match cursor_at(all, id, attempt, i) {
            Some(k) => i <= k < all.len() && all[k].experiment_id@ == id && all[k].attempt
                == attempt && forall|j: int|
                i <= j < k ==> !((#[trigger] all[j]).experiment_id@ == id && all[j].attempt
                    == attempt),
            None => forall|j: int|
                i <= j < all.len() ==> !((#[trigger] all[j]).experiment_id@ == id && all[j].attempt
                    == attempt),
        },
    decreases all.len() - i,
{
    if i < all.len() {
        lemma_cursor_found(all, id, attempt, i + 1);
    }
}

/// Moving the cursor of an attempt moves that one and no other.
proof fn lemma_cursor_moved(
    before: Store,
    after: Store,
    run: ExperimentRun,
    attempt: u32,
    sequence: i64,
    id: Seq<char>,
    number: u32,
)
    requires
        moved(before.cursors@, after.cursors@, run, attempt, sequence),
    ensures
        evaluated_to(after, id, number) == if id == run.experiment_id@ && number == attempt {
            sequence
        } else {
            evaluated_to(before, id, number)
        },
{
    let (old_ones, new_ones) = (before.cursors@, after.cursors@);
    lemma_cursor_found(old_ones, run.experiment_id@, attempt, 0);
    lemma_cursor_found(old_ones, id, number, 0);
    lemma_cursor_found(new_ones, id, number, 0);
    let was = cursor_at(old_ones, id, number, 0);
    let is = cursor_at(new_ones, id, number, 0);
    let n = old_ones.len() as int;
    match cursor_at(old_ones, run.experiment_id@, attempt, 0) {
        Some(k) => {
            assert forall|j: int| 0 <= j < n implies (#[trigger] new_ones[j]).experiment_id@
                == old_ones[j].experiment_id@ && new_ones[j].attempt == old_ones[j].attempt && (j
                != k ==> new_ones[j] == old_ones[j]) by {
                assert(new_ones[j] == old_ones.update(k, new_ones[k])[j]);
            }
        },
        None => {
            assert forall|j: int| 0 <= j < n implies #[trigger] new_ones[j] == old_ones[j] by {
                assert(new_ones.drop_last()[j] == new_ones[j]);
            }
            assert(new_ones[n] == new_ones.last());
        },
    }
    if let Some(x) = was {
        assert(new_ones[x].experiment_id@ == id && new_ones[x].attempt == number);
        assert(is is Some);
    }
    if let Some(y) = is {
        if y < n {
            assert(old_ones[y].experiment_id@ == id && old_ones[y].attempt == number);
            assert(was is Some);
        }
    }
}

/// Decisions on another attempt leave those on this one as they are.
proof fn lemma_decided_elsewhere(
    before: Seq<StoredDecision>,
    after: Seq<StoredDecision>,
    id: Seq<char>,
    attempt: u32,
    i: int,
)
    requires
        before.len() <= i <= after.len(),
        forall|d: int|
            before.len() <= d < after.len() ==> (#[trigger] after[d]).decision.experiment_id@ != id
                || after[d].decision.attempt != attempt,
    ensures
        decided_from(after, id, attempt, i) == Seq::<Seq<char>>::empty(),
    decreases after.len() - i,
{
    if i < after.len() {
        lemma_decided_elsewhere(before, after, id, attempt, i + 1);
    }
}

/// A batch that is not full leaves nothing of its attempt to evaluate: this is
/// where the evaluation of an attempt ends.
pub proof fn law_a_short_batch_is_the_last(
    before: Store,
    after: Store,
    workspace: Seq<char>,
    run: ExperimentRun,
    attempt: u32,
    rows: Seq<EventRow>,
    namings: Seq<Naming>,
    now_ms: u64,
)
    requires
        experiment_events::arrived_in_order(before.events@),
        batch_evaluated(before, after, workspace, run, attempt, rows, namings, now_ms),
        rows.len() < EVALUATION_BATCH_SIZE,
    ensures
        caught_up(after, workspace, run.experiment_id@, attempt),
{
    let id = run.experiment_id@;
    let events = before.events@;
    let from = evaluated_to(before, id, attempt);
    let upto = rows.last().arrival_sequence;
    let left = EVALUATION_BATCH_SIZE as int;
    let at = next_from(events, workspace, id, attempt, from, left, 0);
    let more = next_from(events, workspace, id, attempt, upto, left, 0);
    lemma_cursor_moved(before, after, run, attempt, upto, id, attempt);
    lemma_next_from(events, workspace, id, attempt, from, left, 0);
    lemma_next_from(events, workspace, id, attempt, upto, left, 0);
    assert(is_row(rows[rows.len() - 1], events[at[at.len() - 1]]));
    assert(is_next(events[at[at.len() - 1]], workspace, id, attempt, from));
    assert(upto == at.last() + 1);
    if more.len() > 0 {
        let j = more[0];
        assert(is_next(events[j], workspace, id, attempt, upto));
        assert(is_next(events[j], workspace, id, attempt, from));
        assert(at.contains(j));
        let m = choose|m: int| 0 <= m < at.len() && at[m] == j;
        if m < at.len() - 1 {
            assert(at[m] < at[at.len() - 1]);
        }
        assert(false);
    }
}

proof fn lemma_in_step(
    before: Store,
    after: Store,
    workspace: Seq<char>,
    run: ExperimentRun,
    attempt: u32,
)
    requires
        distinctly_named(run.decision_boundaries@),
        run.decision_boundaries@.len() <= usize::MAX,
        in_step(before, workspace, run, attempt),
        goes_on(before, after, workspace, run, attempt),
    ensures
        in_step(after, workspace, run, attempt),
{
    let id = run.experiment_id@;
    let boundaries = run.decision_boundaries@;
    let from = evaluated_to(before, id, attempt);
    if after == before {
    } else if events_arrived(before, after) {
        law_later_events_change_no_decision(
            boundaries,
            before.events@,
            after.events@,
            before.decisions@,
            workspace,
            id,
            attempt,
            from,
        );
    } else if exists|rows: Seq<EventRow>, namings: Seq<Naming>, now_ms: u64|
        #[trigger] batch_evaluated(before, after, workspace, run, attempt, rows, namings, now_ms) {
        let (rows, namings, now_ms) = choose|rows: Seq<EventRow>, namings: Seq<Naming>, now_ms: u64|
            #[trigger] batch_evaluated(
                before,
                after,
                workspace,
                run,
                attempt,
                rows,
                namings,
                now_ms,
            );
        let left = EVALUATION_BATCH_SIZE as int;
        let at = next_from(before.events@, workspace, id, attempt, from, left, 0);
        let upto = rows.last().arrival_sequence;
        lemma_next_from(before.events@, workspace, id, attempt, from, left, 0);
        lemma_cursor_moved(before, after, run, attempt, upto, id, attempt);
        assert(is_row(rows[rows.len() - 1], before.events@[at[at.len() - 1]]));
        law_decisions_follow_the_events(
            before.events@,
            before.decisions@,
            after.decisions@,
            workspace,
            run,
            attempt,
            from,
            rows,
            namings,
            now_ms,
        );
    } else {
        let (there, other, number, rows, namings, now_ms) = choose|
            there: Seq<char>,
            other: ExperimentRun,
            number: u32,
            rows: Seq<EventRow>,
            namings: Seq<Naming>,
            now_ms: u64,
        |
            (other.experiment_id@ != run.experiment_id@ || number != attempt)
                && #[trigger] batch_evaluated(
                before,
                after,
                there,
                other,
                number,
                rows,
                namings,
                now_ms,
            );
        let upto = rows.last().arrival_sequence;
        lemma_cursor_moved(before, after, other, number, upto, id, attempt);
        let (was, is) = (before.decisions@, after.decisions@);
        let n = was.len() as int;
        let known = decided_from(was, other.experiment_id@, number, 0);
        let fired = fires(other.decision_boundaries@, rows, 0, known).0;
        let noted = recorded(known, other.decision_boundaries@, fired, 0);
        assert forall|d: int| n <= d < is.len() implies (
        #[trigger] is[d]).decision.experiment_id@ != id || is[d].decision.attempt != attempt by {
            let k = d - n;
            assert(decides(
                is[n + k],
                there,
                other,
                number,
                fired[noted[k]],
                rows,
                namings[noted[k]].hex@,
                now_ms,
            ));
        }
        lemma_decided_elsewhere(was, is, id, attempt, n);
        lemma_decided_appended(was, is, id, attempt, 0);
        assert(decided_from(is, id, attempt, 0) =~= decided_from(was, id, attempt, 0));
        assert forall|d: int, b: int|
            0 <= d < is.len() && 0 <= b < boundaries.len() && #[trigger] decision_on(
                is[d],
                id,
                attempt,
                boundaries[b].boundary_id@,
            ) implies exists|i: int|
            #[trigger] first_qualifying(
                boundaries,
                after.events@,
                workspace,
                id,
                attempt,
                from,
                b,
                i,
            ) && is[d].decision.triggering_event_sequence
                == after.events@[i].event.arrival_sequence by {
            assert(d < n);
            assert(is.take(n)[d] == is[d]);
            assert(decision_on(was[d], id, attempt, boundaries[b].boundary_id@));
        }
    }
}

proof fn lemma_history_in_step(
    history: Seq<Store>,
    workspace: Seq<char>,
    run: ExperimentRun,
    attempt: u32,
    k: int,
)
    requires
        0 <= k < history.len(),
        distinctly_named(run.decision_boundaries@),
        run.decision_boundaries@.len() <= usize::MAX,
        in_step(history[0], workspace, run, attempt),
        forall|i: int|
            0 <= i < history.len() - 1 ==> goes_on(
                #[trigger] history[i],
                history[i + 1],
                workspace,
                run,
                attempt,
            ),
    ensures
        in_step(history[k], workspace, run, attempt),
    decreases k,
{
    if k > 0 {
        lemma_history_in_step(history, workspace, run, attempt, k - 1);
        assert(goes_on(history[k - 1], history[k - 1 + 1], workspace, run, attempt));
        lemma_in_step(history[k - 1], history[k], workspace, run, attempt);
    }
}

/// However often an experiment is evaluated, and whatever arrives in between, every
/// boundary of an attempt is decided at most once and by the first event that
/// qualifies for it. `history` is the store from before anything of the attempt was
/// evaluated, step by step. Its decisions are exact for the events evaluated so far;
/// and once nothing is left to evaluate, as where an evaluation ends, exact for all:
/// a boundary is decided if and only if an event qualifies, and the decision names
/// the one of lowest arrival. One more evaluation then finds nothing, and writes
/// nothing.
pub proof fn law_boundaries_are_decided_once_by_their_first_event(
    history: Seq<Store>,
    workspace: Seq<char>,
    run: ExperimentRun,
    attempt: u32,
)
    requires
        history.len() > 0,
        distinctly_named(run.decision_boundaries@),
        run.decision_boundaries@.len() <= usize::MAX,
        experiment_events::arrived_in_order(history[0].events@),
        decided_from(history[0].decisions@, run.experiment_id@, attempt, 0).len() == 0,
        cursor_at(history[0].cursors@, run.experiment_id@, attempt, 0) is None,
        forall|i: int|
            0 <= i < history.len() - 1 ==> goes_on(
                #[trigger] history[i],
                history[i + 1],
                workspace,
                run,
                attempt,
            ),
    ensures
        ({
            let now = history.last();
            let id = run.experiment_id@;
            &&& decided_exactly(
                run.decision_boundaries@,
                now.events@,
                now.decisions@,
                workspace,
                id,
                attempt,
                evaluated_to(now, id, attempt),
            )
            &&& caught_up(now, workspace, id, attempt) ==> decided_exactly(
                run.decision_boundaries@,
                now.events@,
                now.decisions@,
                workspace,
                id,
                attempt,
                i64::MAX,
            )
        }),
{
    let id = run.experiment_id@;
    law_nothing_is_decided_beforehand(
        run.decision_boundaries@,
        history[0].events@,
        history[0].decisions@,
        workspace,
        id,
        attempt,
    );
    lemma_history_in_step(history, workspace, run, attempt, history.len() - 1);
    let now = history.last();
    if caught_up(now, workspace, id, attempt) {
        law_every_boundary_is_decided_in_the_end(
            run.decision_boundaries@,
            now.events@,
            now.decisions@,
            workspace,
            id,
            attempt,
            evaluated_to(now, id, attempt),
        );
    }
}

} // verus!
