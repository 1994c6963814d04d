//! Getting one answer from a provider: which routes are tried, what is retried,
//! and when it is given up.
use crate::error::{invalid, Error};
use crate::protocol::AgentRole;
use crate::runtime::config::MAX_PROVIDER_RETRIES;
use crate::runtime::record::OutcomeClass;
use crate::text;
use vstd::prelude::*;

verus! {

/// How much of a provider failure is kept.
pub const FAILURE_CHARS: usize = 900;

/// Why an exchange with a provider came to nothing.
#[derive(Debug, PartialEq, Eq)]
pub enum Failure {
    Invalid(String),
    /// No provider was reached at all.
    Unavailable(String),
    Provider { class: OutcomeClass, detail: String },
}

/// A failure by what it says.
pub enum FailureView {
    Invalid(Seq<char>),
    Unavailable(Seq<char>),
    Provider { class: OutcomeClass, detail: Seq<char> },
}

impl View for Failure {
    type V = FailureView;

    open spec fn view(&self) -> FailureView {
        match self {
            Failure::Invalid(m) => FailureView::Invalid(m@),
            Failure::Unavailable(m) => FailureView::Unavailable(m@),
            Failure::Provider { class, detail } => FailureView::Provider {
                class: *class,
                detail: detail@,
            },
        }
    }
}

/// A provider failure, cut to what is kept of it.
pub open spec fn kept(class: OutcomeClass, detail: Seq<char>) -> FailureView {
    FailureView::Provider { class, detail: text::clipped(detail, FAILURE_CHARS as int) }
}

pub fn provider_failure(class: OutcomeClass, detail: &str) -> (r: Failure)
    ensures
        r@ == kept(class, detail@),
{
    Failure::Provider { class, detail: text::clip(detail, FAILURE_CHARS) }
}

/// Whether a class of failure may be repeated at all. What a planner got wrong
/// goes to its own correction instead.
pub open spec fn eligible(role: AgentRole, class: OutcomeClass) -> bool {
    match class {
        OutcomeClass::RetryableProviderFailure => true,
        OutcomeClass::ValidationFailure => role != AgentRole::Planner,
        OutcomeClass::NonretryableProviderFailure => false,
        OutcomeClass::SemanticRejection => false,
    }
}

/// Whether a failed exchange may be repeated as a fresh job: nothing was
/// cancelled, and an executor left the workspace exactly as it was issued.
pub fn retry_safe(role: AgentRole, class: OutcomeClass, cancelled: bool, unchanged: bool) -> (r: bool)
    ensures
        r == (eligible(role, class) && !cancelled && (role != AgentRole::Executor || unchanged)),
{
    let may: bool = match class {
        OutcomeClass::RetryableProviderFailure => true,
        OutcomeClass::ValidationFailure => role != AgentRole::Planner,
        OutcomeClass::NonretryableProviderFailure => false,
        OutcomeClass::SemanticRejection => false,
    };
    may && !cancelled && (role != AgentRole::Executor || unchanged)
}

pub const POLICY_DRIFT: &'static str =
    "SOURCE_DRIFT: project policy changed; replan/revalidation required";

pub const LAUNCH_POLICY_DRIFT: &'static str =
    "SOURCE_DRIFT: project policy changed before launch; replan/revalidation required";

/// Refuses work under another project policy than the one that it was issued
/// under. A policy that cannot be read has no hash.
pub fn same_policy(current: &Option<String>, issued: &str, launching: bool) -> (r: Result<(), Error>)
    ensures
        crate::error::settles(
            r,
            if crate::planning::validation::is_text(*current, issued@) {
                None
            } else if launching {
                Some(LAUNCH_POLICY_DRIFT@)
            } else {
                Some(POLICY_DRIFT@)
            },
        ),
{
    if crate::planning::validation::holds_text(current, issued) {
        return Ok(());
    }
    if launching {
        invalid(LAUNCH_POLICY_DRIFT)
    } else {
        invalid(POLICY_DRIFT)
    }
}

/// The routes that may be tried: the primary one, and the first few others.
pub open spec fn permitted(
    primary: Seq<char>,
    fallbacks: Seq<Seq<char>>,
    max_fallbacks: int,
) -> Seq<Seq<char>> {
    seq![primary] + fallbacks.take(
        if fallbacks.len() <= max_fallbacks {
            fallbacks.len() as int
        } else {
            max_fallbacks
        },
    )
}

/// A route that could not be reached, and why.
#[derive(Debug, PartialEq, Eq)]
pub struct FailedRoute {
    pub route: String,
    pub reason: String,
}

/// What became of one attempt.
#[derive(Debug, PartialEq, Eq)]
pub enum Attempted {
    Done,
    Failed(Failure),
}

/// What is done next.
#[derive(Debug, PartialEq, Eq)]
pub enum Next {
    /// The answer stands.
    Finish,
    /// The same route again, as a fresh job.
    Retry { retry: u32 },
    /// The next route, once `fall_back` allows it.
    Fallback { attempt: usize },
    /// Every permitted route was tried.
    Exhausted,
    Fail(Failure),
}

/// One role's search for an answer.
#[derive(Debug, PartialEq, Eq)]
pub struct Dispatch {
    pub routes: Vec<String>,
    pub attempt: usize,
    pub retries: u32,
    pub failures: Vec<FailedRoute>,
}

impl Dispatch {
    /// Whether a route is being tried, no more often than allowed.
    pub open spec fn well_formed(self) -> bool {
        self.attempt < self.routes@.len() && self.retries <= MAX_PROVIDER_RETRIES
    }

    /// How many attempts are still possible, this one included.
    pub open spec fn attempts_left(self) -> int {
        (self.routes@.len() - self.attempt) * (MAX_PROVIDER_RETRIES + 1) - self.retries
    }

    pub fn new(primary: &str, fallbacks: &Vec<String>, max_fallbacks: usize) -> (r: Self)
        ensures
            r.well_formed(),
            text::texts(r.routes@) == permitted(
                primary@,
                text::texts(fallbacks@),
                max_fallbacks as int,
            ),
            r.attempt == 0,
            r.retries == 0,
            r.failures@.len() == 0,
    {
        let mut routes: Vec<String> = Vec::new();
        routes.push(primary.to_owned());
        let n: usize = if fallbacks.len() <= max_fallbacks {
            fallbacks.len()
        } else {
            max_fallbacks
        };
        let ghost all = text::texts(fallbacks@);
        assert(text::texts(routes@) =~= seq![primary@] + all.take(0));
        let mut i: usize = 0;
        while i < n
            invariant
                i <= n <= fallbacks@.len(),
                all == text::texts(fallbacks@),
                text::texts(routes@) == seq![primary@] + all.take(i as int),
                routes@.len() == i + 1,
            decreases n - i,
        {
            let ghost so_far = text::texts(routes@);
            routes.push(fallbacks[i].clone());
            assert(text::texts(routes@) =~= so_far.push(all[i as int]));
            assert(seq![primary@] + all.take(i + 1) =~= (seq![primary@] + all.take(i as int)).push(
                all[i as int],
            ));
            i += 1;
        }
        Dispatch { routes, attempt: 0, retries: 0, failures: Vec::new() }
    }
}

/// What is said of a failure after retries.
pub open spec fn after_retries(detail: Seq<char>, retries: u32) -> Seq<char> {
    detail + " (after "@ + text::digits(retries as nat) + " automatic retr"@ + (if retries == 1 {
        "y"@
    } else {
        "ies"@
    }) + ")"@
}

fn say_after_retries(detail: &str, retries: u32) -> (r: String)
    ensures
        r@ == after_retries(detail@, retries),
{
    let count: String = text::decimal(retries as u64);
    let head: String = text::join3(detail, " (after ", count.as_str());
    let tail: String = text::join2(
        " automatic retr",
        if retries == 1 {
            "y"
        } else {
            "ies"
        },
    );
    let r: String = text::join3(head.as_str(), tail.as_str(), ")");
    assert(r@ =~= after_retries(detail@, retries));
    r
}

/// What follows a failed attempt that may (`safe`) or may not be repeated.
pub open spec fn follows(d: Dispatch, failure: FailureView, safe: bool, next: Next) -> bool {
    match failure {
        FailureView::Unavailable(_) => if d.attempt + 1 < d.routes@.len() {
            next == (Next::Fallback { attempt: (d.attempt + 1) as usize })
        } else {
            next is Exhausted
        },
        FailureView::Provider { class, detail } => if d.retries < MAX_PROVIDER_RETRIES && safe {
            next == (Next::Retry { retry: (d.retries + 1) as u32 })
        } else if d.retries > 0 {
            next matches Next::Fail(f) && f@ == (FailureView::Provider {
                class,
                detail: after_retries(detail, d.retries),
            })
        } else {
            next matches Next::Fail(f) && f@ == failure
        },
        FailureView::Invalid(_) => next matches Next::Fail(f) && f@ == failure,
    }
}

impl Dispatch {
    /// Takes in what became of an attempt and says what is done next. `safe`
    /// says whether a provider failure may be repeated.
    pub fn settle(&mut self, attempted: Attempted, safe: bool) -> (r: Next)
        requires
            old(self).well_formed(),
        ensures
            final(self).routes == old(self).routes,
            match attempted {
                Attempted::Done => r is Finish && *final(self) == *old(self),
                Attempted::Failed(f) => follows(*old(self), f@, safe, r),
            },
            r is Retry || r is Fallback ==> final(self).well_formed()
                && final(self).attempts_left() < old(self).attempts_left(),
            r matches Next::Retry { retry } ==> final(self).retries == retry
                && final(self).attempt == old(self).attempt && final(self).failures@
                == old(self).failures@,
            r matches Next::Fallback { attempt } ==> final(self).attempt == attempt
                && final(self).retries == 0,
            r is Fail ==> *final(self) == *old(self),
            r is Exhausted ==> final(self).attempt == old(self).attempt && final(self).retries
                == old(self).retries,
            attempted matches Attempted::Failed(Failure::Unavailable(reason)) ==> {
                &&& final(self).failures@.len() == old(self).failures@.len() + 1
                &&& final(self).failures@.drop_last() == old(self).failures@
                &&& final(self).failures@.last().route == old(self).routes@[old(
                    self,
                ).attempt as int]
                &&& final(self).failures@.last().reason == reason
            },
    {
        match attempted {
            Attempted::Done => Next::Finish,
            Attempted::Failed(Failure::Unavailable(reason)) => {
                let ghost before = self.failures@;
                self.failures.push(
                    FailedRoute { route: self.routes[self.attempt].clone(), reason },
                );
                assert(self.failures@.drop_last() =~= before);
                if self.routes.len() - self.attempt > 1 {
                    self.attempt = self.attempt + 1;
                    self.retries = 0;
                    Next::Fallback { attempt: self.attempt }
                } else {
                    Next::Exhausted
                }
            },
            Attempted::Failed(Failure::Provider { class, detail }) => {
                if self.retries < MAX_PROVIDER_RETRIES && safe {
                    self.retries = self.retries + 1;
                    Next::Retry { retry: self.retries }
                } else if self.retries > 0 {
                    Next::Fail(
                        Failure::Provider {
                            class,
                            detail: say_after_retries(detail.as_str(), self.retries),
                        },
                    )
                } else {
                    Next::Fail(Failure::Provider { class, detail })
                }
            },
            Attempted::Failed(failure) => Next::Fail(failure),
        }
    }
}

/// Lets the next route be tried only where the failed one left the source as it
/// was and nothing was cancelled.
pub fn fall_back(unchanged: bool, cancelled: bool) -> (r: Result<(), Error>)
    ensures
        crate::error::settles(
            r,
            if !unchanged {
                Some("source changed during failed startup; fallback blocked"@)
            } else if cancelled {
                Some("cancelled before fallback"@)
            } else {
                None
            },
        ),
{
    if !unchanged {
        return invalid("source changed during failed startup; fallback blocked");
    }
    if cancelled {
        return invalid("cancelled before fallback");
    }
    Ok(())
}

/// What is said where every permitted route failed. `failures` lists them as
/// JSON.
pub fn exhausted(role: &str, failures: &str) -> (r: Failure)
    ensures
        r@ == FailureView::Invalid(
            "role "@ + role@ + ": all permitted route attempts failed: "@ + failures@,
        ),
{
    let head: String = text::join3("role ", role, ": all permitted route attempts failed: ");
    Failure::Invalid(text::join2(head.as_str(), failures))
}

/// A dispatch is bounded: from its start, no more attempts are possible than
/// every permitted route with every retry.
pub proof fn law_attempts_are_bounded(d: Dispatch)
    requires
        d.well_formed(),
    ensures
        1 <= d.attempts_left() <= d.routes@.len() * (MAX_PROVIDER_RETRIES + 1),
{
    assert((d.routes@.len() - d.attempt) * (MAX_PROVIDER_RETRIES + 1) >= MAX_PROVIDER_RETRIES + 1)
        by (nonlinear_arith)
        requires
            d.attempt < d.routes@.len(),
    ;
    assert((d.routes@.len() - d.attempt) * (MAX_PROVIDER_RETRIES + 1) <= d.routes@.len() * (
    MAX_PROVIDER_RETRIES + 1)) by (nonlinear_arith)
        requires
            d.attempt < d.routes@.len(),
    ;
}

} // verus!
