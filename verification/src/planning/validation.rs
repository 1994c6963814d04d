//! The rules that planning requests and execution plans must satisfy, and the
//! refusals they meet where they do not.
use crate::error::{invalid, Error};
use crate::graph;
use crate::graph::Provenance;
use crate::planning::model::{
    Invariant, PlanningProvenance, PlanningSource, ProjectPolicy, RequestDraft, VerificationProfile,
};
use crate::planning::scope;
use crate::planning::scope::ScopePath;
use crate::protocol;
use crate::protocol::VerificationRequirements;
use crate::repository::RepositoryInfo;
use crate::text;
use vstd::prelude::*;
use vstd::string::*;

verus! {

// ---------------------------------------------------------------------------
// Objections of other rules
// ---------------------------------------------------------------------------

/// What a rule of another part of the control plane has against a subject (a
/// path, an identifier, a task, a memory reference).
#[derive(Debug)]
pub struct Objection {
    pub subject: String,
    pub message: String,
}

/// The first objection to a subject from the `i`-th on.
pub open spec fn objection(list: Seq<Objection>, subject: Seq<char>, i: int) -> Option<Seq<char>>
    decreases list.len() - i,
{
    if i < 0 || i >= list.len() {
        None
    } else if list[i].subject@ == subject {
        Some(list[i].message@)
    } else {
        objection(list, subject, i + 1)
    }
}

/// Refuses a subject that there is an objection to.
pub fn unopposed(list: &Vec<Objection>, subject: &str) -> (r: Result<(), Error>)
    ensures
        crate::error::settles(r, objection(list@, subject@, 0)),
{
    let mut i: usize = 0;
    while i < list.len()
        invariant
            i <= list@.len(),
            objection(list@, subject@, 0) == objection(list@, subject@, i as int),
        decreases list@.len() - i,
    {
        if text::same(list[i].subject.as_str(), subject) {
            return invalid(list[i].message.as_str());
        }
        i += 1;
    }
    Ok(())
}

/// The contents of an optional message.
pub open spec fn message(m: Option<String>) -> Option<Seq<char>> {
    match m {
        Some(s) => Some(s@),
        None => None,
    }
}

/// A refusal where there is a message.
pub fn unless(m: &Option<String>) -> (r: Result<(), Error>)
    ensures
        crate::error::settles(r, message(*m)),
{
    match m {
        Some(s) => invalid(s.as_str()),
        None => Ok(()),
    }
}

/// A refusal where a rule does not hold.
pub fn require(holds: bool, m: &str) -> (r: Result<(), Error>)
    ensures
        crate::error::settles(
            r,
            if holds {
                None
            } else {
                Some(m@)
            },
        ),
{
    if holds {
        Ok(())
    } else {
        invalid(m)
    }
}

// ---------------------------------------------------------------------------
// Texts
// ---------------------------------------------------------------------------

/// Whether a text is nonblank, free of NUL and at most `max` bytes.
pub open spec fn text_ok(s: Seq<char>, max: int) -> bool {
    !text::blank(s) && !s.contains('\0') && text::size(s) <= max
}

/// Why a text is not acceptable, if anything.
pub open spec fn text_refusal(s: Seq<char>, max: int, name: Seq<char>) -> Option<Seq<char>> {
    if text_ok(s, max) {
        None
    } else {
        Some(
            name + " must be nonblank, NUL-free and at most "@ + text::digits(max as nat) + " bytes"@,
        )
    }
}

/// Checks that a text is nonblank, free of NUL and at most `max` bytes.
pub fn validate_text(s: &str, max: usize, name: &str) -> (r: Result<(), Error>)
    ensures
        crate::error::settles(r, text_refusal(s@, max as int, name@)),
{
    if !text::is_blank(s) && !text::has_char(s, '\0') && text::byte_len(s) <= max {
        return Ok(());
    }
    let limit: String = text::decimal(max as u64);
    let m: String = text::join2(name, " must be nonblank, NUL-free and at most ");
    let m: String = text::join3(m.as_str(), limit.as_str(), " bytes");
    invalid(m.as_str())
}

/// Why the texts from the `i`-th on are not acceptable, if anything.
pub open spec fn each_text_refusal(values: Seq<Seq<char>>, name: Seq<char>, i: int) -> Option<
    Seq<char>,
>
    decreases values.len() - i,
{
    if i < 0 || i >= values.len() {
        None
    } else {
        crate::error::either(
            text_refusal(values[i], 1024, name),
            each_text_refusal(values, name, i + 1),
        )
    }
}

/// Why a list of texts is not acceptable, if anything: at most 32 of them, each
/// acceptable.
pub open spec fn texts_refusal(values: Seq<Seq<char>>, name: Seq<char>) -> Option<Seq<char>> {
    if values.len() > 32 {
        Some("too many "@ + name)
    } else {
        each_text_refusal(values, name, 0)
    }
}

/// Checks a list of texts.
pub fn validate_texts(values: &Vec<String>, name: &str) -> (r: Result<(), Error>)
    ensures
        crate::error::settles(r, texts_refusal(text::texts(values@), name@)),
{
    if values.len() > 32 {
        let m: String = text::join2("too many ", name);
        return invalid(m.as_str());
    }
    let ghost all = text::texts(values@);
    let mut i: usize = 0;
    while i < values.len()
        invariant
            all == text::texts(values@),
            all.len() <= 32,
            i <= values@.len(),
            each_text_refusal(all, name@, 0) == each_text_refusal(all, name@, i as int),
        decreases values@.len() - i,
    {
        assert(all[i as int] == values@[i as int]@);
        match validate_text(values[i].as_str(), 1024, name) {
            Ok(()) => {},
            Err(e) => return Err(e),
        }
        i += 1;
    }
    Ok(())
}

pub const PROVENANCE_RULE: &'static str = "planning provenance requires a source reference";

/// Why a provenance is not acceptable, if anything. What the provider rule says
/// comes last.
pub open spec fn provenance_refusal(
    p: PlanningProvenance,
    provider_refusal: Option<String>,
) -> Option<Seq<char>> {
    crate::error::either(
        text_refusal(p.actor@, 128, "planning actor"@),
        crate::error::either(
            texts_refusal(text::texts(p.source_refs@), "provenance refs"@),
            if p.source_refs@.len() == 0 {
                Some(PROVENANCE_RULE@)
            } else if p.provider is Some {
                message(provider_refusal)
            } else {
                None
            },
        ),
    )
}

pub fn provenance(p: &PlanningProvenance, provider_refusal: &Option<String>) -> (r: Result<
    (),
    Error,
>)
    ensures
        crate::error::settles(r, provenance_refusal(*p, *provider_refusal)),
{
    match validate_text(p.actor.as_str(), 128, "planning actor") {
        Ok(()) => {},
        Err(e) => return Err(e),
    }
    match validate_texts(&p.source_refs, "provenance refs") {
        Ok(()) => {},
        Err(e) => return Err(e),
    }
    if p.source_refs.len() == 0 {
        return invalid(PROVENANCE_RULE);
    }
    if p.provider.is_some() {
        return unless(provider_refusal);
    }
    Ok(())
}

// ---------------------------------------------------------------------------
// Intent
// ---------------------------------------------------------------------------

/// What other rules say of a planning intent.
#[derive(Debug)]
pub struct IntentFacts {
    /// Bytes of the intent as compact JSON.
    pub bytes: usize,
    pub provider_refusal: Option<String>,
    /// What the path rule of the repository has against scope paths.
    pub paths: Vec<Objection>,
    pub verification_refusal: Option<String>,
}

pub const INTENT_BOUNDS: &'static str = "planning intent exceeds bounds";

/// Why the paths of the scopes from the `i`-th on are not acceptable.
pub open spec fn scope_paths_refusal(scopes: Seq<ScopePath>, paths: Seq<Objection>, i: int) -> Option<
    Seq<char>,
>
    decreases scopes.len() - i,
{
    if i < 0 || i >= scopes.len() {
        None
    } else {
        crate::error::either(
            objection(paths, scopes[i].at(), 0),
            scope_paths_refusal(scopes, paths, i + 1),
        )
    }
}

pub fn scope_paths(scopes: &Vec<ScopePath>, paths: &Vec<Objection>) -> (r: Result<(), Error>)
    ensures
        crate::error::settles(r, scope_paths_refusal(scopes@, paths@, 0)),
{
    let mut i: usize = 0;
    while i < scopes.len()
        invariant
            i <= scopes@.len(),
            scope_paths_refusal(scopes@, paths@, 0) == scope_paths_refusal(
                scopes@,
                paths@,
                i as int,
            ),
        decreases scopes@.len() - i,
    {
        match unopposed(paths, scopes[i].path()) {
            Ok(()) => {},
            Err(e) => return Err(e),
        }
        i += 1;
    }
    Ok(())
}

/// Why a planning intent is not acceptable, if anything.
pub open spec fn intent_refusal(d: RequestDraft, facts: IntentFacts) -> Option<Seq<char>> {
    crate::error::either(
        text_refusal(d.objective@, 4096, "objective"@),
        crate::error::either(
            provenance_refusal(d.provenance, facts.provider_refusal),
            crate::error::either(
                match d.query {
                    Some(q) => text_refusal(q@, 512, "planning query"@),
                    None => None,
                },
                crate::error::either(
                    texts_refusal(text::texts(d.constraints@), "constraints"@),
                    crate::error::either(
                        texts_refusal(text::texts(d.definition_of_done@), "done criteria"@),
                        if !(facts.bytes <= 16384 && d.scope@.len() <= 32 && d.invariant_refs@.len()
                            <= 32) {
                            Some(INTENT_BOUNDS@)
                        } else {
                            crate::error::either(
                                scope_paths_refusal(d.scope@, facts.paths@, 0),
                                if d.verification is Some {
                                    message(facts.verification_refusal)
                                } else {
                                    None
                                },
                            )
                        },
                    ),
                ),
            ),
        ),
    )
}

/// Checks a planning intent.
pub fn check_intent(d: &RequestDraft, facts: &IntentFacts) -> (r: Result<(), Error>)
    ensures
        crate::error::settles(r, intent_refusal(*d, *facts)),
{
    match validate_text(d.objective.as_str(), 4096, "objective") {
        Ok(()) => {},
        Err(e) => return Err(e),
    }
    match provenance(&d.provenance, &facts.provider_refusal) {
        Ok(()) => {},
        Err(e) => return Err(e),
    }
    if let Some(q) = &d.query {
        match validate_text(q.as_str(), 512, "planning query") {
            Ok(()) => {},
            Err(e) => return Err(e),
        }
    }
    match validate_texts(&d.constraints, "constraints") {
        Ok(()) => {},
        Err(e) => return Err(e),
    }
    match validate_texts(&d.definition_of_done, "done criteria") {
        Ok(()) => {},
        Err(e) => return Err(e),
    }
    if !(facts.bytes <= 16384 && d.scope.len() <= 32 && d.invariant_refs.len() <= 32) {
        return invalid(INTENT_BOUNDS);
    }
    match scope_paths(&d.scope, &facts.paths) {
        Ok(()) => {},
        Err(e) => return Err(e),
    }
    if d.verification.is_some() {
        return unless(&facts.verification_refusal);
    }
    Ok(())
}

// ---------------------------------------------------------------------------
// Policy references
// ---------------------------------------------------------------------------

/// Whether policy defines a verification profile of this name.
pub open spec fn has_profile(profiles: Seq<VerificationProfile>, name: Seq<char>) -> bool {
    exists|i: int| 0 <= i < profiles.len() && (#[trigger] profiles[i]).name@ == name
}

pub fn profile_defined(profiles: &Vec<VerificationProfile>, name: &str) -> (r: bool)
    ensures
        r == has_profile(profiles@, name@),
{
    let mut i: usize = 0;
    while i < profiles.len()
        invariant
            i <= profiles@.len(),
            forall|j: int| 0 <= j < i ==> (#[trigger] profiles@[j]).name@ != name@,
        decreases profiles@.len() - i,
    {
        if text::same(profiles[i].name.as_str(), name) {
            return true;
        }
        i += 1;
    }
    false
}

/// The first reference from the `i`-th on that policy does not define.
pub open spec fn undefined_check(
    refs: Seq<Seq<char>>,
    profiles: Seq<VerificationProfile>,
    i: int,
) -> Option<Seq<char>>
    decreases refs.len() - i,
{
    if i < 0 || i >= refs.len() {
        None
    } else if !has_profile(profiles, refs[i]) {
        Some("verification reference "@ + refs[i] + " is not defined in project policy"@)
    } else {
        undefined_check(refs, profiles, i + 1)
    }
}

pub const TOO_MANY_CHECKS: &'static str = "too many verification requirements";

/// Why verification requirements are not acceptable, if anything. What the
/// protocol says of their shape comes first.
pub open spec fn checks_refusal(
    policy: ProjectPolicy,
    v: VerificationRequirements,
    shape_refusal: Option<Seq<char>>,
) -> Option<Seq<char>> {
    crate::error::either(
        shape_refusal,
        if v.requirement_refs@.len() > 32 {
            Some(TOO_MANY_CHECKS@)
        } else {
            undefined_check(text::texts(v.requirement_refs@), policy.verification@, 0)
        },
    )
}

/// Checks that well-shaped verification requirements are few and name only
/// profiles of policy.
pub fn checks(policy: &ProjectPolicy, v: &VerificationRequirements) -> (r: Result<(), Error>)
    ensures
        crate::error::settles(r, checks_refusal(*policy, *v, None)),
{
    if v.requirement_refs.len() > 32 {
        return invalid(TOO_MANY_CHECKS);
    }
    let ghost refs = text::texts(v.requirement_refs@);
    let mut i: usize = 0;
    while i < v.requirement_refs.len()
        invariant
            refs == text::texts(v.requirement_refs@),
            refs.len() <= 32,
            i <= v.requirement_refs@.len(),
            undefined_check(refs, policy.verification@, 0) == undefined_check(
                refs,
                policy.verification@,
                i as int,
            ),
        decreases v.requirement_refs@.len() - i,
    {
        let name: &str = v.requirement_refs[i].as_str();
        assert(refs[i as int] == name@);
        if !profile_defined(&policy.verification, name) {
            let m: String = text::join3(
                "verification reference ",
                name,
                " is not defined in project policy",
            );
            return invalid(m.as_str());
        }
        i += 1;
    }
    Ok(())
}

/// The content stored under a key, if any.
pub open spec fn content_of(list: Seq<Invariant>, key: Seq<char>, i: int) -> Option<Seq<char>>
    decreases list.len() - i,
{
    if i < 0 || i >= list.len() {
        None
    } else if list[i].key@ == key {
        Some(list[i].content@)
    } else {
        content_of(list, key, i + 1)
    }
}

/// How many entries a key has from the `i`-th on.
pub open spec fn entries(list: Seq<Invariant>, key: Seq<char>, i: int) -> int
    decreases list.len() - i,
{
    if i < 0 || i >= list.len() {
        0
    } else {
        entries(list, key, i + 1) + if list[i].key@ == key {
            1int
        } else {
            0
        }
    }
}

pub fn find_content(list: &Vec<Invariant>, key: &str) -> (r: Option<String>)
    ensures
        message(r) == content_of(list@, key@, 0),
        r matches Some(s) ==> exists|i: int|
            0 <= i < list@.len() && (#[trigger] list@[i]).key@ == key@ && s == list@[i].content,
{
    let mut i: usize = 0;
    while i < list.len()
        invariant
            i <= list@.len(),
            content_of(list@, key@, 0) == content_of(list@, key@, i as int),
        decreases list@.len() - i,
    {
        if text::same(list[i].key.as_str(), key) {
            return Some(list[i].content.clone());
        }
        i += 1;
    }
    None
}

fn single_entry(list: &Vec<Invariant>, key: &str) -> (r: bool)
    ensures
        r == (entries(list@, key@, 0) == 1),
{
    let mut found: usize = 0;
    let mut i: usize = list.len();
    while i > 0
        invariant
            i <= list@.len(),
            list@.len() <= usize::MAX,
            found == entries(list@, key@, i as int),
            found <= list@.len() - i,
        decreases i,
    {
        i -= 1;
        if text::same(list[i].key.as_str(), key) {
            found += 1;
        }
    }
    found == 1
}

pub const TOO_MANY_INVARIANTS: &'static str = "at most 32 critical invariants";

/// Why the invariant references from the `i`-th on are not acceptable: each
/// must be an identifier and name either live project policy or exactly one
/// active canonical entry.
pub open spec fn invariant_refs_refusal(
    refs: Seq<Seq<char>>,
    policy: Seq<Invariant>,
    canonical: Seq<Invariant>,
    identifiers: Seq<Objection>,
    i: int,
) -> Option<Seq<char>>
    decreases refs.len() - i,
{
    if i < 0 || i >= refs.len() {
        None
    } else {
        crate::error::either(
            objection(identifiers, refs[i], 0),
            if content_of(policy, refs[i], 0) is Some || entries(canonical, refs[i], 0) == 1 {
                invariant_refs_refusal(refs, policy, canonical, identifiers, i + 1)
            } else {
                Some(
                    "invariant "@ + refs[i]
                        + " is neither live project policy nor an active canonical keyed invariant"@,
                )
            },
        )
    }
}

/// Why a list of invariant references is not acceptable, if anything.
pub open spec fn invariants_refusal(
    refs: Seq<Seq<char>>,
    policy: Seq<Invariant>,
    canonical: Seq<Invariant>,
    identifiers: Seq<Objection>,
) -> Option<Seq<char>> {
    if refs.len() > 32 {
        Some(TOO_MANY_INVARIANTS@)
    } else {
        invariant_refs_refusal(refs, policy, canonical, identifiers, 0)
    }
}

/// Checks invariant references against live policy and the active canonical
/// entries of the repository.
pub fn validate_invariants(
    refs: &Vec<String>,
    policy: &Vec<Invariant>,
    canonical: &Vec<Invariant>,
    identifiers: &Vec<Objection>,
) -> (r: Result<(), Error>)
    ensures
        crate::error::settles(
            r,
            invariants_refusal(text::texts(refs@), policy@, canonical@, identifiers@),
        ),
{
    if refs.len() > 32 {
        return invalid(TOO_MANY_INVARIANTS);
    }
    let ghost all = text::texts(refs@);
    let mut i: usize = 0;
    while i < refs.len()
        invariant
            all == text::texts(refs@),
            all.len() <= 32,
            i <= refs@.len(),
            invariant_refs_refusal(all, policy@, canonical@, identifiers@, 0)
                == invariant_refs_refusal(all, policy@, canonical@, identifiers@, i as int),
        decreases refs@.len() - i,
    {
        let key: &str = refs[i].as_str();
        assert(all[i as int] == key@);
        match unopposed(identifiers, key) {
            Ok(()) => {},
            Err(e) => return Err(e),
        }
        if find_content(policy, key).is_none() && !single_entry(canonical, key) {
            let m: String = text::join3(
                "invariant ",
                key,
                " is neither live project policy nor an active canonical keyed invariant",
            );
            return invalid(m.as_str());
        }
        i += 1;
    }
    Ok(())
}

/// The text of an invariant: that of live policy, else the canonical one.
pub open spec fn invariant_text(
    policy: Seq<Invariant>,
    canonical: Seq<Invariant>,
    key: Seq<char>,
) -> Option<Seq<char>> {
    crate::error::either(content_of(policy, key, 0), content_of(canonical, key, 0))
}

/// Whether prepared invariants are exactly the referenced ones with the texts
/// they have now.
pub open spec fn invariants_current(
    refs: Seq<Seq<char>>,
    policy: Seq<Invariant>,
    canonical: Seq<Invariant>,
    prepared: Seq<Invariant>,
) -> bool {
    &&& forall|i: int|
        0 <= i < refs.len() ==> content_of(prepared, #[trigger] refs[i], 0) == invariant_text(
            policy,
            canonical,
            refs[i],
        )
    &&& forall|j: int| 0 <= j < prepared.len() ==> refs.contains((#[trigger] prepared[j]).key@)
}

/// Whether prepared invariants still have the texts they were prepared with.
pub fn invariants_unchanged(
    refs: &Vec<String>,
    policy: &Vec<Invariant>,
    canonical: &Vec<Invariant>,
    prepared: &Vec<Invariant>,
) -> (r: bool)
    ensures
        r == invariants_current(text::texts(refs@), policy@, canonical@, prepared@),
{
    let ghost all = text::texts(refs@);
    let mut i: usize = 0;
    while i < refs.len()
        invariant
            all == text::texts(refs@),
            i <= refs@.len(),
            forall|j: int|
                0 <= j < i ==> content_of(prepared@, #[trigger] all[j], 0) == invariant_text(
                    policy@,
                    canonical@,
                    all[j],
                ),
        decreases refs@.len() - i,
    {
        let key: &str = refs[i].as_str();
        assert(all[i as int] == key@);
        let now: Option<String> = match find_content(policy, key) {
            Some(c) => Some(c),
            None => find_content(canonical, key),
        };
        let then_text: Option<String> = find_content(prepared, key);
        if !text::same_optional(&then_text, &now) {
            assert(content_of(prepared@, all[i as int], 0) != invariant_text(policy@, canonical@, all[i as int]));
            return false;
        }
        i += 1;
    }
    let mut j: usize = 0;
    while j < prepared.len()
        invariant
            all == text::texts(refs@),
            j <= prepared@.len(),
            forall|k: int| 0 <= k < j ==> all.contains((#[trigger] prepared@[k]).key@),
        decreases prepared@.len() - j,
    {
        if !text::among(refs, prepared[j].key.as_str()) {
            assert(!all.contains(prepared@[j as int].key@));
            return false;
        }
        j += 1;
    }
    true
}

// ---------------------------------------------------------------------------
// Source assumptions
// ---------------------------------------------------------------------------

/// What the index and the checkout hold of a file.
#[derive(Debug)]
pub struct IndexedSource {
    pub path: String,
    /// The indexed content, its backend and what the index complains of.
    pub content_hash: Option<String>,
    pub backend: String,
    pub diagnostic: Option<String>,
    /// The content in the checkout, where the file is part of the sources.
    pub current: Option<String>,
}

/// What a plan's source is held against.
#[derive(Debug)]
pub struct SourceFacts {
    pub index_version: String,
    pub policy_hash: String,
    pub indexed: Vec<IndexedSource>,
}

/// The record of a file, looked up from the `i`-th on.
pub open spec fn indexed_at(indexed: Seq<IndexedSource>, path: Seq<char>, i: int) -> Option<int>
    decreases indexed.len() - i,
{
    if i < 0 || i >= indexed.len() {
        None
    } else if indexed[i].path@ == path {
        Some(i)
    } else {
        indexed_at(indexed, path, i + 1)
    }
}

fn find_indexed(indexed: &Vec<IndexedSource>, path: &str) -> (r: Option<usize>)
    ensures
        match r {
            Some(i) => i < indexed@.len() && indexed_at(indexed@, path@, 0) == Some(i as int),
            None => indexed_at(indexed@, path@, 0) is None,
        },
{
    let mut i: usize = 0;
    while i < indexed.len()
        invariant
            i <= indexed@.len(),
            indexed_at(indexed@, path@, 0) == indexed_at(indexed@, path@, i as int),
        decreases indexed@.len() - i,
    {
        if text::same(indexed[i].path.as_str(), path) {
            return Some(i);
        }
        i += 1;
    }
    None
}

/// Whether an optional text is the given one.
pub open spec fn is_text(m: Option<String>, s: Seq<char>) -> bool {
    match m {
        Some(x) => x@ == s,
        None => false,
    }
}

pub fn holds_text(m: &Option<String>, s: &str) -> (r: bool)
    ensures
        r == is_text(*m, s@),
{
    match m {
        Some(x) => text::same(x.as_str(), s),
        None => false,
    }
}

/// Why one supporting file no longer supports a plan, if anything.
pub open spec fn support_refusal(
    p: Provenance,
    info: RepositoryInfo,
    indexed: Seq<IndexedSource>,
) -> Option<Seq<char>> {
    if !(p.repository_id@ == info.repository_id@ && p.workspace_id@ == info.workspace_id@
        && p.backend@ == p.language_backend@) {
        Some("invalid supporting source provenance"@)
    } else {
        match indexed_at(indexed, p.path@, 0) {
            None => Some("supporting graph provenance drifted"@),
            Some(k) => if !(is_text(indexed[k].content_hash, p.content_hash@) && indexed[k].backend@
                == p.backend@ && indexed[k].diagnostic is None) {
                Some("supporting graph provenance drifted"@)
            } else if !is_text(indexed[k].current, p.content_hash@) {
                Some("supporting source changed/excluded; reindex and prepare a new request"@)
            } else {
                None
            },
        }
    }
}

/// Why the supporting files from the `i`-th on no longer support a plan.
pub open spec fn supports_refusal(
    support: Seq<Provenance>,
    info: RepositoryInfo,
    indexed: Seq<IndexedSource>,
    i: int,
) -> Option<Seq<char>>
    decreases support.len() - i,
{
    if i < 0 || i >= support.len() {
        None
    } else {
        crate::error::either(
            support_refusal(support[i], info, indexed),
            supports_refusal(support, info, indexed, i + 1),
        )
    }
}

/// Why a plan's source assumptions do not hold of the checkout, if anything.
pub open spec fn source_refusal(s: PlanningSource, info: RepositoryInfo, facts: SourceFacts) -> Option<
    Seq<char>,
> {
    if !(s.observation.repository_id@ == info.repository_id@ && s.observation.workspace_id@
        == info.workspace_id@) {
        Some("planning source belongs to another repository/workspace"@)
    } else if !(text::same_option(s.observation.head_commit, info.source.head_commit)
        && s.observation.dirty == info.source.dirty) {
        Some("HEAD/dirty observation drifted; prepare a new request"@)
    } else if !(s.observation.worktree_fingerprint is None && s.graph_version@
        == facts.index_version@) {
        Some("unsupported planning source guarantee/version"@)
    } else if s.policy_hash@ != facts.policy_hash@ {
        Some("project policy changed; prepare a new request"@)
    } else if s.support@.len() > 16 {
        Some("too many planning source files"@)
    } else {
        supports_refusal(s.support@, info, facts.indexed@, 0)
    }
}

fn support_matches(p: &Provenance, info: &RepositoryInfo, indexed: &Vec<IndexedSource>) -> (r: Result<
    (),
    Error,
>)
    ensures
        crate::error::settles(r, support_refusal(*p, *info, indexed@)),
{
    if !(text::same(p.repository_id.as_str(), info.repository_id.as_str()) && text::same(
        p.workspace_id.as_str(),
        info.workspace_id.as_str(),
    ) && text::same(p.backend.as_str(), p.language_backend.as_str())) {
        return invalid("invalid supporting source provenance");
    }
    match find_indexed(indexed, p.path.as_str()) {
        None => invalid("supporting graph provenance drifted"),
        Some(k) => {
            if !(holds_text(&indexed[k].content_hash, p.content_hash.as_str()) && text::same(
                indexed[k].backend.as_str(),
                p.backend.as_str(),
            ) && indexed[k].diagnostic.is_none()) {
                return invalid("supporting graph provenance drifted");
            }
            if !holds_text(&indexed[k].current, p.content_hash.as_str()) {
                return invalid(
                    "supporting source changed/excluded; reindex and prepare a new request",
                );
            }
            Ok(())
        },
    }
}

/// Checks that the checkout is still the source that a plan was prepared
/// against.
pub fn source_matches(s: &PlanningSource, info: &RepositoryInfo, facts: &SourceFacts) -> (r: Result<
    (),
    Error,
>)
    ensures
        crate::error::settles(r, source_refusal(*s, *info, *facts)),
{
    if !(text::same(s.observation.repository_id.as_str(), info.repository_id.as_str())
        && text::same(s.observation.workspace_id.as_str(), info.workspace_id.as_str())) {
        return invalid("planning source belongs to another repository/workspace");
    }
    if !(text::same_optional(&s.observation.head_commit, &info.source.head_commit)
        && s.observation.dirty == info.source.dirty) {
        return invalid("HEAD/dirty observation drifted; prepare a new request");
    }
    if !(s.observation.worktree_fingerprint.is_none() && text::same(
        s.graph_version.as_str(),
        facts.index_version.as_str(),
    )) {
        return invalid("unsupported planning source guarantee/version");
    }
    if !text::same(s.policy_hash.as_str(), facts.policy_hash.as_str()) {
        return invalid("project policy changed; prepare a new request");
    }
    if s.support.len() > 16 {
        return invalid("too many planning source files");
    }
    let mut i: usize = 0;
    while i < s.support.len()
        invariant
            i <= s.support@.len(),
            source_refusal(*s, *info, *facts) == supports_refusal(
                s.support@,
                *info,
                facts.indexed@,
                i as int,
            ),
        decreases s.support@.len() - i,
    {
        match support_matches(&s.support[i], info, &facts.indexed) {
            Ok(()) => {},
            Err(e) => return Err(e),
        }
        i += 1;
    }
    Ok(())
}

/// A plan whose source still matches was prepared in this very workspace, from
/// the commit that is checked out now and under the policy of now, and every
/// file that supports it still has the content it had.
pub proof fn law_matching_sources_are_unchanged(
    s: PlanningSource,
    info: RepositoryInfo,
    facts: SourceFacts,
    i: int,
)
    requires
        source_refusal(s, info, facts) is None,
        0 <= i < s.support@.len(),
    ensures
        s.observation.workspace_id@ == info.workspace_id@,
        text::same_option(s.observation.head_commit, info.source.head_commit),
        s.policy_hash@ == facts.policy_hash@,
        s.support@[i].workspace_id@ == info.workspace_id@,
        exists|k: int|
            0 <= k < facts.indexed@.len() && (#[trigger] facts.indexed@[k]).path@
                == s.support@[i].path@ && is_text(
                facts.indexed@[k].current,
                s.support@[i].content_hash@,
            ),
{
    lemma_supported(s.support@, info, facts.indexed@, 0, i);
    lemma_indexed_at(facts.indexed@, s.support@[i].path@, 0);
}

proof fn lemma_supported(
    support: Seq<Provenance>,
    info: RepositoryInfo,
    indexed: Seq<IndexedSource>,
    from: int,
    i: int,
)
    requires
        0 <= from <= i < support.len(),
        supports_refusal(support, info, indexed, from) is None,
    ensures
        support_refusal(support[i], info, indexed) is None,
    decreases i - from,
{
    if from < i {
        lemma_supported(support, info, indexed, from + 1, i);
    }
}

proof fn lemma_indexed_at(indexed: Seq<IndexedSource>, path: Seq<char>, i: int)
    requires
        0 <= i,
    ensures
        indexed_at(indexed, path, i) matches Some(k) ==> i <= k < indexed.len() && indexed[k].path@
            == path,
    decreases indexed.len() - i,
{
    if i < indexed.len() && indexed[i].path@ != path {
        lemma_indexed_at(indexed, path, i + 1);
    }
}

} // verus!
