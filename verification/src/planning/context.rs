//! The bounded artifact that a planner is given: what it must keep true, the
//! files and exact excerpts it sees, and what is left out where that is too
//! much.
use crate::error::{invalid, Error};
use crate::excerpt;
use crate::graph;
use crate::graph::{ContextPacket, Edge, Entity, EntityKind, Provenance};
use crate::planning::model::{
    Invariant, LIMITS_RULE, MemoryContext, MemoryItem, PlannerPacket, PlanningArtifactKind,
    PlanningContext, PlanningLimits, PlanningRequest, PlanningRequestId, PlanningSource,
    ProjectPolicy, RequestDraft, SourceExcerpt,
};
use crate::planning::plan::REQUEST_NOT_FOUND;
use crate::planning::scope;
use crate::planning::scope::ScopePath;
use crate::planning::validation;
use crate::planning::validation::{IntentFacts, Objection, SourceFacts};
use crate::protocol::ProtocolVersion;
use crate::repository::{RepositoryInfo, WorkspaceId};
use crate::store::{JournalEntry, Store, StoredRequest};
use crate::text;
use vstd::prelude::*;
use vstd::string::*;
use vstd::utf8::*;

verus! {

// ---------------------------------------------------------------------------
// Invariants
// ---------------------------------------------------------------------------

/// The keys of some invariants.
pub open spec fn keys(list: Seq<Invariant>) -> Seq<Seq<char>> {
    list.map_values(|i: Invariant| i.key@)
}

fn same_keys(a: &Vec<Invariant>, b: &Vec<Invariant>) -> (r: bool)
    ensures
        r == (keys(a@) == keys(b@)),
{
    if a.len() != b.len() {
        assert(keys(a@).len() != keys(b@).len());
        return false;
    }
    let mut i: usize = 0;
    while i < a.len()
        invariant
            i <= a@.len() == b@.len(),
            forall|k: int| 0 <= k < i ==> (#[trigger] keys(a@)[k]) == keys(b@)[k],
        decreases a@.len() - i,
    {
        if !text::same(a[i].key.as_str(), b[i].key.as_str()) {
            assert(keys(a@)[i as int] != keys(b@)[i as int]);
            return false;
        }
        i += 1;
    }
    assert(keys(a@) =~= keys(b@));
    true
}

/// The invariants a plan must keep: the requested ones and all of the
/// project's, in order and each once.
pub fn critical_refs(requested: &Vec<String>, policy: &Vec<Invariant>) -> (r: Vec<String>)
    ensures
        text::texts(r@) == text::in_order(text::texts(requested@) + keys(policy@)),
{
    let mut out: Vec<String> = text::set_of(requested);
    let ghost first = text::texts(requested@);
    let ghost second = keys(policy@);
    let mut i: usize = 0;
    while i < policy.len()
        invariant
            i <= policy@.len(),
            second == keys(policy@),
            text::ascending(text::texts(out@)),
            forall|t: Seq<char>| #[trigger]
                text::texts(out@).contains(t) <==> first.contains(t) || second.take(
                    i as int,
                ).contains(t),
        decreases policy@.len() - i,
    {
        let ghost so_far = text::texts(out@);
        text::set_insert(&mut out, policy[i].key.as_str());
        proof {
            let taken = second.take(i as int);
            let next = second.take(i + 1);
            assert(next =~= taken.push(policy@[i as int].key@));
            assert forall|t: Seq<char>| #[trigger] text::texts(out@).contains(t)
                <==> first.contains(t) || next.contains(t) by {
                assert(so_far.contains(t) <==> first.contains(t) || taken.contains(t));
                text::lemma_push_contains(taken, policy@[i as int].key@, t);
            }
        }
        i += 1;
    }
    proof {
        assert(second.take(i as int) =~= second);
        assert forall|t: Seq<char>| #[trigger] text::texts(out@).contains(t) <==> (first
            + second).contains(t) by {
            text::lemma_sum_contains(first, second, t);
        }
        text::lemma_in_order(text::texts(out@), first + second);
    }
    out
}

/// Whether resolved invariants are the referenced ones with the texts they have
/// now.
pub open spec fn resolves(
    list: Seq<Invariant>,
    refs: Seq<Seq<char>>,
    policy: Seq<Invariant>,
    canonical: Seq<Invariant>,
) -> bool {
    &&& list.len() == refs.len()
    &&& forall|i: int|
        0 <= i < list.len() ==> (#[trigger] list[i]).key@ == refs[i] && Some(list[i].content@)
            == validation::invariant_text(policy, canonical, refs[i])
}

proof fn lemma_single_has_content(list: Seq<Invariant>, key: Seq<char>, i: int)
    requires
        0 <= i,
        validation::entries(list, key, i) != 0,
    ensures
        validation::content_of(list, key, i) is Some,
    decreases list.len() - i,
{
    if i < list.len() && list[i].key@ != key {
        lemma_single_has_content(list, key, i + 1);
    }
}

proof fn lemma_refs_have_text(
    refs: Seq<Seq<char>>,
    policy: Seq<Invariant>,
    canonical: Seq<Invariant>,
    identifiers: Seq<Objection>,
    from: int,
    i: int,
)
    requires
        0 <= from <= i < refs.len(),
        validation::invariant_refs_refusal(refs, policy, canonical, identifiers, from) is None,
    ensures
        validation::invariant_text(policy, canonical, refs[i]) is Some,
    decreases i - from,
{
    if from < i {
        lemma_refs_have_text(refs, policy, canonical, identifiers, from + 1, i);
    } else if validation::content_of(policy, refs[i], 0) is None {
        lemma_single_has_content(canonical, refs[i], 0);
    }
}

/// The texts of the referenced invariants: those of live policy, else the
/// canonical ones.
pub fn resolve_invariants(
    refs: &Vec<String>,
    policy: &Vec<Invariant>,
    canonical: &Vec<Invariant>,
    identifiers: &Vec<Objection>,
) -> (r: Result<Vec<Invariant>, Error>)
    ensures
        crate::error::settles(
            r,
            validation::invariants_refusal(
                text::texts(refs@),
                policy@,
                canonical@,
                identifiers@,
            ),
        ),
        r matches Ok(list) ==> resolves(list@, text::texts(refs@), policy@, canonical@),
{
    match validation::validate_invariants(refs, policy, canonical, identifiers) {
        Ok(()) => {},
        Err(e) => return Err(e),
    }
    let ghost all = text::texts(refs@);
    let mut out: Vec<Invariant> = Vec::new();
    let mut i: usize = 0;
    while i < refs.len()
        invariant
            all == text::texts(refs@),
            i <= refs@.len(),
            validation::invariant_refs_refusal(all, policy@, canonical@, identifiers@, 0) is None,
            resolves(out@, all.take(i as int), policy@, canonical@),
        decreases refs@.len() - i,
    {
        assert(all[i as int] == refs@[i as int]@);
        proof {
            lemma_refs_have_text(all, policy@, canonical@, identifiers@, 0, i as int);
        }
        let key: &str = refs[i].as_str();
        let content: String = match validation::find_content(policy, key) {
            Some(c) => c,
            None => validation::find_content(canonical, key).unwrap(),
        };
        out.push(Invariant { key: key.to_owned(), content });
        i += 1;
        assert(all.take(i as int) =~= all.take(i - 1).push(all[i - 1]));
    }
    assert(all.take(i as int) =~= all);
    Ok(out)
}

// ---------------------------------------------------------------------------
// Preparation
// ---------------------------------------------------------------------------

/// What a request is held against before its context is prepared.
#[derive(Debug)]
pub struct PreparationFacts {
    pub intent: IntentFacts,
    /// Bytes of the project policy as compact JSON.
    pub policy_bytes: usize,
    pub canonical: Vec<Invariant>,
    pub identifiers: Vec<Objection>,
    pub verification_shape: Option<String>,
    pub paths: Vec<Objection>,
    pub symlinked: Vec<String>,
}

pub const POLICY_RULE: &'static str =
    "planning policy exceeds 16 KiB; use a smaller explicit project policy";

/// Why the scopes of a request from the `i`-th on are not acceptable.
pub open spec fn scopes_refusal(
    scopes: Seq<ScopePath>,
    policy: ProjectPolicy,
    facts: PreparationFacts,
    i: int,
) -> Option<Seq<char>>
    decreases scopes.len() - i,
{
    if i < 0 || i >= scopes.len() {
        None
    } else {
        crate::error::either(
            validation::objection(facts.paths@, scopes[i].at(), 0),
            crate::error::either(
                scope::scope_refusal(
                    None,
                    policy.protected@,
                    scopes[i],
                    false,
                    text::texts(facts.symlinked@).contains(scopes[i].at()),
                ),
                scopes_refusal(scopes, policy, facts, i + 1),
            ),
        )
    }
}

fn scopes_acceptable(scopes: &Vec<ScopePath>, policy: &ProjectPolicy, facts: &PreparationFacts) -> (r:
    Result<(), Error>)
    ensures
        crate::error::settles(r, scopes_refusal(scopes@, *policy, *facts, 0)),
{
    let mut i: usize = 0;
    while i < scopes.len()
        invariant
            i <= scopes@.len(),
            scopes_refusal(scopes@, *policy, *facts, 0) == scopes_refusal(
                scopes@,
                *policy,
                *facts,
                i as int,
            ),
        decreases scopes@.len() - i,
    {
        match validation::unopposed(&facts.paths, scopes[i].path()) {
            Ok(()) => {},
            Err(e) => return Err(e),
        }
        let symlinked: bool = text::among(&facts.symlinked, scopes[i].path());
        match scope::safe_scope(&None, &policy.protected, &scopes[i], false, symlinked) {
            Ok(()) => {},
            Err(e) => return Err(e),
        }
        i += 1;
    }
    Ok(())
}

/// Why a request cannot be prepared, if anything.
pub open spec fn preparation_refusal(
    intent: RequestDraft,
    limits: PlanningLimits,
    policy: ProjectPolicy,
    facts: PreparationFacts,
) -> Option<Seq<char>> {
    crate::error::either(
        validation::intent_refusal(intent, facts.intent),
        if !crate::planning::model::limits_ok(limits) {
            Some(LIMITS_RULE@)
        } else if facts.policy_bytes > 16384 {
            Some(POLICY_RULE@)
        } else {
            crate::error::either(
                validation::invariants_refusal(
                    text::in_order(text::texts(intent.invariant_refs@) + keys(policy.invariants@)),
                    policy.invariants@,
                    facts.canonical@,
                    facts.identifiers@,
                ),
                crate::error::either(
                    match intent.verification {
                        Some(v) => validation::checks_refusal(
                            policy,
                            v,
                            validation::message(facts.verification_shape),
                        ),
                        None => None,
                    },
                    scopes_refusal(intent.scope@, policy, facts, 0),
                ),
            )
        },
    )
}

/// Checks a request before its context is prepared, and gives the invariants
/// that a plan for it must keep.
pub fn prepare(
    intent: &RequestDraft,
    limits: &PlanningLimits,
    policy: &ProjectPolicy,
    facts: &PreparationFacts,
) -> (r: Result<Vec<Invariant>, Error>)
    ensures
        crate::error::settles(r, preparation_refusal(*intent, *limits, *policy, *facts)),
        r matches Ok(list) ==> resolves(
            list@,
            text::in_order(text::texts(intent.invariant_refs@) + keys(policy.invariants@)),
            policy.invariants@,
            facts.canonical@,
        ),
{
    match validation::check_intent(intent, &facts.intent) {
        Ok(()) => {},
        Err(e) => return Err(e),
    }
    if !limits.in_range() {
        return invalid(LIMITS_RULE);
    }
    if facts.policy_bytes > 16384 {
        return invalid(POLICY_RULE);
    }
    let refs: Vec<String> = critical_refs(&intent.invariant_refs, &policy.invariants);
    let invariants: Vec<Invariant> = match resolve_invariants(
        &refs,
        &policy.invariants,
        &facts.canonical,
        &facts.identifiers,
    ) {
        Ok(list) => list,
        Err(e) => return Err(e),
    };
    if let Some(v) = &intent.verification {
        match validation::unless(&facts.verification_shape) {
            Ok(()) => {},
            Err(e) => return Err(e),
        }
        match validation::checks(policy, v) {
            Ok(()) => {},
            Err(e) => return Err(e),
        }
    }
    match scopes_acceptable(&intent.scope, policy, facts) {
        Ok(()) => {},
        Err(e) => return Err(e),
    }
    Ok(invariants)
}

// ---------------------------------------------------------------------------
// The file budget
// ---------------------------------------------------------------------------

/// The entities of a packet in the order in which their files are chosen: what
/// is asked for first, then the strongest test, then neighbors, then the other
/// tests.
pub open spec fn priority(g: ContextPacket) -> Seq<Entity> {
    g.primary@ + g.tests@.take(if g.tests@.len() > 0 {
        1int
    } else {
        0
    }) + g.neighbors@ + g.tests@.skip(if g.tests@.len() > 0 {
        1int
    } else {
        0
    })
}

/// The files that the first `k` entities choose: those inside the scope, in
/// order and each once, until there are as many as the budget allows.
pub open spec fn chosen(list: Seq<Entity>, scopes: Seq<ScopePath>, limit: int, k: int) -> Seq<
    Seq<char>,
>
    decreases k,
{
    if k <= 0 {
        Seq::empty()
    } else {
        let so_far = chosen(list, scopes, limit, k - 1);
        let path = list[k - 1].provenance.path@;
        if so_far.len() < limit && (scopes.len() == 0 || scope::any_allows(scopes, path))
            && !so_far.contains(path) {
            so_far.push(path)
        } else {
            so_far
        }
    }
}

fn choose_from(
    files: &mut Vec<String>,
    list: &Vec<Entity>,
    from: usize,
    to: usize,
    scopes: &Vec<ScopePath>,
    limit: usize,
    Ghost(all): Ghost<Seq<Entity>>,
    Ghost(at): Ghost<int>,
)
    requires
        from <= to <= list@.len(),
        0 <= at,
        at + to - from <= all.len(),
        forall|i: int| from <= i < to ==> #[trigger] all[at + i - from] == list@[i],
        text::texts(old(files)@) == chosen(all, scopes@, limit as int, at),
    ensures
        text::texts(final(files)@) == chosen(all, scopes@, limit as int, at + to - from),
{
    let mut i: usize = from;
    while i < to
        invariant
            from <= i <= to <= list@.len(),
            0 <= at,
            at + to - from <= all.len(),
            forall|j: int| from <= j < to ==> #[trigger] all[at + j - from] == list@[j],
            text::texts(files@) == chosen(all, scopes@, limit as int, at + i - from),
        decreases to - i,
    {
        let ghost so_far = text::texts(files@);
        let path: &str = list[i].provenance.path.as_str();
        assert(all[at + i - from] == list@[i as int]);
        assert(so_far.len() == files@.len());
        if files.len() < limit && (scopes.len() == 0 || scope::any_permits(scopes, path))
            && !text::among(files, path) {
            files.push(path.to_owned());
            assert(text::texts(files@) =~= so_far.push(path@));
        }
        i += 1;
    }
}

/// The files whose facts and excerpts a packet may carry.
pub fn choose_files(g: &ContextPacket, scopes: &Vec<ScopePath>, limit: usize) -> (r: Vec<String>)
    ensures
        text::texts(r@) == chosen(
            priority(*g),
            scopes@,
            limit as int,
            priority(*g).len() as int,
        ),
        r@.len() <= limit,
{
    let ghost all = priority(*g);
    let mut files: Vec<String> = Vec::new();
    assert(text::texts(files@) =~= Seq::<Seq<char>>::empty());
    let first: usize = if g.tests.len() > 0 {
        1
    } else {
        0
    };
    let (primaries, neighbors, tests): (usize, usize, usize) = (
        g.primary.len(),
        g.neighbors.len(),
        g.tests.len(),
    );
    choose_from(&mut files, &g.primary, 0, primaries, scopes, limit, Ghost(all), Ghost(0int));
    choose_from(
        &mut files,
        &g.tests,
        0,
        first,
        scopes,
        limit,
        Ghost(all),
        Ghost(primaries as int),
    );
    choose_from(
        &mut files,
        &g.neighbors,
        0,
        neighbors,
        scopes,
        limit,
        Ghost(all),
        Ghost(primaries + first),
    );
    choose_from(
        &mut files,
        &g.tests,
        first,
        tests,
        scopes,
        limit,
        Ghost(all),
        Ghost(primaries + first + neighbors),
    );
    proof {
        lemma_chosen_bounded(all, scopes@, limit as int, all.len() as int);
        assert(text::texts(files@).len() == files@.len());
    }
    files
}

proof fn lemma_chosen_bounded(list: Seq<Entity>, scopes: Seq<ScopePath>, limit: int, k: int)
    requires
        0 <= limit,
    ensures
        chosen(list, scopes, limit, k).len() <= limit,
    decreases k,
{
    if k > 0 {
        lemma_chosen_bounded(list, scopes, limit, k - 1);
    }
}

/// A chosen file lies inside the requested scope, where there is one.
pub proof fn law_chosen_files_are_in_scope(
    list: Seq<Entity>,
    scopes: Seq<ScopePath>,
    limit: int,
    k: int,
    path: Seq<char>,
)
    requires
        0 <= k <= list.len(),
        chosen(list, scopes, limit, k).contains(path),
    ensures
        scopes.len() == 0 || scope::any_allows(scopes, path),
    decreases k,
{
    if k > 0 {
        let so_far = chosen(list, scopes, limit, k - 1);
        text::lemma_push_contains(so_far, list[k - 1].provenance.path@, path);
        if so_far.contains(path) {
            law_chosen_files_are_in_scope(list, scopes, limit, k - 1, path);
        }
    }
}

// ---------------------------------------------------------------------------
// Excerpts
// ---------------------------------------------------------------------------

pub const NEIGHBOR_EXCERPTS: usize = 2;

pub const TEST_EXCERPTS: usize = 2;

/// The content of a file and its hash.
#[derive(Debug)]
pub struct SourceFile {
    pub path: String,
    pub hash: String,
    pub text: String,
}

/// Whether an entity can be excerpted: not a whole file or module.
pub open spec fn excerptable(e: Entity) -> bool {
    e.kind != EntityKind::File && e.kind != EntityKind::Module
}

/// The first entities that can be excerpted, at most `limit` of them, from the
/// `i`-th on.
pub open spec fn excerptables(list: Seq<Entity>, limit: int, i: int) -> Seq<Entity>
    decreases list.len() - i,
{
    if i < 0 || i >= list.len() || limit <= 0 {
        Seq::empty()
    } else if excerptable(list[i]) {
        seq![list[i]] + excerptables(list, limit - 1, i + 1)
    } else {
        excerptables(list, limit, i + 1)
    }
}

fn collect_excerptables(list: &Vec<Entity>, limit: usize) -> (r: Vec<Entity>)
    ensures
        r@ == excerptables(list@, limit as int, 0),
{
    let mut out: Vec<Entity> = Vec::new();
    let mut left: usize = limit;
    let mut i: usize = 0;
    while i < list.len() && left > 0
        invariant
            i <= list@.len(),
            out@ + excerptables(list@, left as int, i as int) == excerptables(
                list@,
                limit as int,
                0,
            ),
        decreases list@.len() - i,
    {
        let ghost so_far = out@;
        let fit: bool = match list[i].kind {
            EntityKind::File | EntityKind::Module => false,
            _ => true,
        };
        if fit {
            out.push(list[i].clone());
            left -= 1;
            assert(out@ + excerptables(list@, left as int, i + 1) =~= so_far + (seq![
                list@[i as int],
            ] + excerptables(list@, left as int, i + 1)));
        }
        i += 1;
    }
    assert(out@ + excerptables(list@, left as int, i as int) =~= out@);
    out
}

/// The entities of a packet that are excerpted, in order.
pub open spec fn candidates(g: ContextPacket) -> Seq<Entity> {
    excerptables(g.primary@, g.primary@.len() as int, 0) + excerptables(
        g.neighbors@,
        NEIGHBOR_EXCERPTS as int,
        0,
    ) + excerptables(g.tests@, TEST_EXCERPTS as int, 0)
}

/// The position of a file, looked up from the `i`-th on.
pub open spec fn source_at(sources: Seq<SourceFile>, path: Seq<char>, i: int) -> Option<int>
    decreases sources.len() - i,
{
    if i < 0 || i >= sources.len() {
        None
    } else if sources[i].path@ == path {
        Some(i)
    } else {
        source_at(sources, path, i + 1)
    }
}

fn find_source(sources: &Vec<SourceFile>, path: &str) -> (r: Option<usize>)
    ensures
        match r {
            Some(i) => i < sources@.len() && source_at(sources@, path@, 0) == Some(i as int),
            None => source_at(sources@, path@, 0) is None,
        },
{
    let mut i: usize = 0;
    while i < sources.len()
        invariant
            i <= sources@.len(),
            source_at(sources@, path@, 0) == source_at(sources@, path@, i as int),
        decreases sources@.len() - i,
    {
        if text::same(sources[i].path.as_str(), path) {
            return Some(i);
        }
        i += 1;
    }
    None
}

/// What an excerpt holds.
#[verifier::ext_equal]
pub struct ExcerptView {
    pub entity: Seq<char>,
    pub provenance: Provenance,
    pub start: int,
    pub end: int,
    pub start_line: int,
    pub bytes: Seq<u8>,
    pub truncated: bool,
}

/// Whether an excerpt holds exactly this.
pub open spec fn excerpt_is(x: SourceExcerpt, v: ExcerptView) -> bool {
    &&& validation::is_text(x.entity, v.entity)
    &&& x.provenance == v.provenance
    &&& x.start_byte == v.start
    &&& x.end_byte == v.end
    &&& x.start_line == v.start_line
    &&& encode_utf8(x.text@) == v.bytes
    &&& x.truncated == v.truncated
}

/// The excerpt of an entity from the bytes of its file.
pub open spec fn excerpt_of(e: Entity, bytes: Seq<u8>, limits: PlanningLimits) -> ExcerptView {
    let end = excerpt::bounded_end(
        bytes,
        e.range.start_byte as int,
        e.range.end_byte as int,
        limits.excerpt_bytes as int,
        limits.excerpt_lines as int,
    );
    ExcerptView {
        entity: e.id@,
        provenance: e.provenance,
        start: e.range.start_byte as int,
        end,
        start_line: e.range.start_line as int,
        bytes: bytes.subrange(e.range.start_byte as int, end),
        truncated: end < e.range.end_byte,
    }
}

/// Whether an earlier excerpt already shows where an entity starts.
pub open spec fn covered(taken: Seq<ExcerptView>, e: Entity) -> bool {
    exists|i: int|
        0 <= i < taken.len() && (#[trigger] taken[i]).provenance.path@ == e.provenance.path@
            && taken[i].start <= e.range.start_byte < taken[i].end
}

/// Whether an earlier excerpt is of the same file.
pub open spec fn opened(taken: Seq<ExcerptView>, path: Seq<char>) -> bool {
    exists|i: int| 0 <= i < taken.len() && (#[trigger] taken[i]).provenance.path@ == path
}

/// The excerpts of the first `k` candidates.
pub open spec fn excerpted(
    list: Seq<Entity>,
    sources: Seq<SourceFile>,
    limits: PlanningLimits,
    k: int,
) -> Seq<ExcerptView>
    decreases k,
{
    if k <= 0 {
        Seq::empty()
    } else {
        let taken = excerpted(list, sources, limits, k - 1);
        if covered(taken, list[k - 1]) {
            taken
        } else {
            let s = source_at(sources, list[k - 1].provenance.path@, 0)->0;
            taken.push(excerpt_of(list[k - 1], encode_utf8(sources[s].text@), limits))
        }
    }
}

/// Why the candidates from the `k`-th on cannot be excerpted.
pub open spec fn excerpts_refusal(
    list: Seq<Entity>,
    sources: Seq<SourceFile>,
    limits: PlanningLimits,
    k: int,
) -> Option<Seq<char>>
    decreases list.len() - k,
{
    if k < 0 || k >= list.len() {
        None
    } else {
        let taken = excerpted(list, sources, limits, k);
        let e = list[k];
        let s = source_at(sources, e.provenance.path@, 0)->0;
        let bytes = encode_utf8(sources[s].text@);
        if covered(taken, e) {
            excerpts_refusal(list, sources, limits, k + 1)
        } else if !opened(taken, e.provenance.path@) && sources[s].hash@
            != e.provenance.content_hash@ {
            Some("source changed during excerpt creation; reindex"@)
        } else if !(is_char_boundary(bytes, e.range.start_byte as int) && e.range.start_byte
            <= bytes.len() && e.range.end_byte <= bytes.len()) {
            Some("invalid indexed source range"@)
        } else {
            excerpts_refusal(list, sources, limits, k + 1)
        }
    }
}

/// Whether excerpts are exactly these.
pub open spec fn excerpts_are(list: Seq<SourceExcerpt>, views: Seq<ExcerptView>) -> bool {
    &&& list.len() == views.len()
    &&& forall|i: int| 0 <= i < list.len() ==> excerpt_is(#[trigger] list[i], views[i])
}

fn is_covered(taken: &Vec<SourceExcerpt>, e: &Entity, Ghost(views): Ghost<Seq<ExcerptView>>) -> (r: bool)
    requires
        excerpts_are(taken@, views),
    ensures
        r == covered(views, *e),
{
    let start: usize = e.range.start_byte;
    let mut i: usize = 0;
    while i < taken.len()
        invariant
            excerpts_are(taken@, views),
            start == e.range.start_byte,
            i <= taken@.len(),
            forall|j: int|
                0 <= j < i ==> !((#[trigger] views[j]).provenance.path@ == e.provenance.path@
                    && views[j].start <= e.range.start_byte < views[j].end),
        decreases taken@.len() - i,
    {
        assert(excerpt_is(taken@[i as int], views[i as int]));
        if text::same(taken[i].provenance.path.as_str(), e.provenance.path.as_str())
            && taken[i].start_byte <= start && start < taken[i].end_byte {
            assert(views[i as int].provenance.path@ == e.provenance.path@);
            return true;
        }
        i += 1;
    }
    false
}

fn is_opened(taken: &Vec<SourceExcerpt>, path: &str, Ghost(views): Ghost<Seq<ExcerptView>>) -> (r: bool)
    requires
        excerpts_are(taken@, views),
    ensures
        r == opened(views, path@),
{
    let mut i: usize = 0;
    while i < taken.len()
        invariant
            excerpts_are(taken@, views),
            i <= taken@.len(),
            forall|j: int| 0 <= j < i ==> (#[trigger] views[j]).provenance.path@ != path@,
        decreases taken@.len() - i,
    {
        assert(excerpt_is(taken@[i as int], views[i as int]));
        if text::same(taken[i].provenance.path.as_str(), path) {
            assert(views[i as int].provenance.path@ == path@);
            return true;
        }
        i += 1;
    }
    false
}

/// Whether every candidate has its file, and a range that does not run
/// backwards.
pub open spec fn readable(list: Seq<Entity>, sources: Seq<SourceFile>) -> bool {
    forall|i: int|
        0 <= i < list.len() ==> source_at(sources, (#[trigger] list[i]).provenance.path@, 0) is Some
            && list[i].range.start_byte <= list[i].range.end_byte
}

/// Exact excerpts in order of value: what is asked for, a few neighbors, then a
/// few tests. A whole file or module, and what an earlier excerpt already
/// shows, is skipped.
pub fn excerpts(g: &ContextPacket, limits: &PlanningLimits, sources: &Vec<SourceFile>) -> (r: Result<
    Vec<SourceExcerpt>,
    Error,
>)
    requires
        readable(candidates(*g), sources@),
    ensures
        limits.excerpt_bytes == 0 || limits.excerpt_lines == 0 ==> (r matches Ok(v)
            && v@.len() == 0),
        limits.excerpt_bytes > 0 && limits.excerpt_lines > 0 ==> crate::error::settles(
            r,
            excerpts_refusal(candidates(*g), sources@, *limits, 0),
        ) && (r matches Ok(v) ==> excerpts_are(
            v@,
            excerpted(candidates(*g), sources@, *limits, candidates(*g).len() as int),
        )),
{
    let mut out: Vec<SourceExcerpt> = Vec::new();
    if limits.excerpt_bytes == 0 || limits.excerpt_lines == 0 {
        return Ok(out);
    }
    let ghost all = candidates(*g);
    let mut list: Vec<Entity> = collect_excerptables(&g.primary, g.primary.len());
    let mut more: Vec<Entity> = collect_excerptables(&g.neighbors, NEIGHBOR_EXCERPTS);
    list.append(&mut more);
    let mut last: Vec<Entity> = collect_excerptables(&g.tests, TEST_EXCERPTS);
    list.append(&mut last);
    assert(list@ =~= all);
    let mut k: usize = 0;
    while k < list.len()
        invariant
            list@ == all,
            all == candidates(*g),
            limits.excerpt_bytes > 0,
            limits.excerpt_lines > 0,
            readable(all, sources@),
            k <= list@.len(),
            excerpts_are(out@, excerpted(all, sources@, *limits, k as int)),
            excerpts_refusal(all, sources@, *limits, 0) == excerpts_refusal(
                all,
                sources@,
                *limits,
                k as int,
            ),
        decreases list@.len() - k,
    {
        let e: &Entity = &list[k];
        let ghost views = excerpted(all, sources@, *limits, k as int);
        assert(all[k as int] == *e);
        let path: &str = e.provenance.path.as_str();
        if !is_covered(&out, e, Ghost(views)) {
            let s: usize = find_source(sources, path).unwrap();
            let content: &str = sources[s].text.as_str();
            let ghost bytes = content.spec_bytes();
            if !is_opened(&out, path, Ghost(views)) && !text::same(
                sources[s].hash.as_str(),
                e.provenance.content_hash.as_str(),
            ) {
                return invalid("source changed during excerpt creation; reindex");
            }
            let (start, end): (usize, usize) = (e.range.start_byte, e.range.end_byte);
            if !(start <= text::byte_len(content) && content.is_char_boundary(start) && end
                <= text::byte_len(content)) {
                return invalid("invalid indexed source range");
            }
            let cut: usize = excerpt::find_bounded_end(
                content,
                start,
                end,
                limits.excerpt_bytes,
                limits.excerpt_lines,
            );
            let shown: &str = excerpt::part(content, start, cut);
            let item: SourceExcerpt = SourceExcerpt {
                entity: Some(e.id.clone()),
                provenance: e.provenance.clone(),
                start_byte: start,
                end_byte: cut,
                start_line: e.range.start_line,
                text: shown.to_owned(),
                truncated: cut < end,
            };
            assert(excerpt_is(item, excerpt_of(*e, bytes, *limits)));
            out.push(item);
        }
        k += 1;
    }
    Ok(out)
}

// ---------------------------------------------------------------------------
// What a packet rests on
// ---------------------------------------------------------------------------

/// The provenances of some entities.
pub open spec fn entity_sources(list: Seq<Entity>) -> Seq<Provenance> {
    list.map_values(|e: Entity| e.provenance)
}

/// Every provenance that a context carries.
pub open spec fn carried(c: PlanningContext) -> Seq<Provenance> {
    entity_sources(c.graph.primary@) + entity_sources(c.graph.tests@) + entity_sources(
        c.graph.neighbors@,
    ) + c.graph.relations@.map_values(|e: Edge| e.provenance) + c.excerpts@.map_values(
        |x: SourceExcerpt| x.provenance,
    )
}

/// The paths of some provenances.
pub open spec fn paths_of(list: Seq<Provenance>) -> Seq<Seq<char>> {
    list.map_values(|p: Provenance| p.path@)
}

/// The last of the first `k` provenances with a path.
pub open spec fn last_of(list: Seq<Provenance>, path: Seq<char>, k: int) -> Option<Provenance>
    decreases k,
{
    if k <= 0 {
        None
    } else if list[k - 1].path@ == path {
        Some(list[k - 1])
    } else {
        last_of(list, path, k - 1)
    }
}

/// Whether support holds the last provenance of each path, in order of paths.
pub open spec fn supports_all(support: Seq<Provenance>, list: Seq<Provenance>) -> bool {
    &&& paths_of(support) == text::in_order(paths_of(list))
    &&& forall|i: int|
        0 <= i < support.len() ==> Some(#[trigger] support[i]) == last_of(
            list,
            support[i].path@,
            list.len() as int,
        )
}

fn push_entities(out: &mut Vec<Provenance>, list: &Vec<Entity>)
    ensures
        final(out)@ == old(out)@ + entity_sources(list@),
{
    let ghost start = out@;
    let mut i: usize = 0;
    while i < list.len()
        invariant
            i <= list@.len(),
            out@ == start + entity_sources(list@).take(i as int),
        decreases list@.len() - i,
    {
        out.push(list[i].provenance.clone());
        i += 1;
        assert(out@ =~= start + entity_sources(list@).take(i as int));
    }
    assert(entity_sources(list@).take(i as int) =~= entity_sources(list@));
}

fn collect_carried(c: &PlanningContext) -> (r: Vec<Provenance>)
    ensures
        r@ == carried(*c),
{
    let mut out: Vec<Provenance> = Vec::new();
    push_entities(&mut out, &c.graph.primary);
    push_entities(&mut out, &c.graph.tests);
    push_entities(&mut out, &c.graph.neighbors);
    let ghost start = out@;
    let ghost edges = c.graph.relations@.map_values(|e: Edge| e.provenance);
    let mut i: usize = 0;
    while i < c.graph.relations.len()
        invariant
            i <= c.graph.relations@.len(),
            edges == c.graph.relations@.map_values(|e: Edge| e.provenance),
            out@ == start + edges.take(i as int),
        decreases c.graph.relations@.len() - i,
    {
        out.push(c.graph.relations[i].provenance.clone());
        i += 1;
        assert(out@ =~= start + edges.take(i as int));
    }
    assert(edges.take(i as int) =~= edges);
    let ghost next = out@;
    let ghost shown = c.excerpts@.map_values(|x: SourceExcerpt| x.provenance);
    let mut i: usize = 0;
    while i < c.excerpts.len()
        invariant
            i <= c.excerpts@.len(),
            shown == c.excerpts@.map_values(|x: SourceExcerpt| x.provenance),
            out@ == next + shown.take(i as int),
        decreases c.excerpts@.len() - i,
    {
        out.push(c.excerpts[i].provenance.clone());
        i += 1;
        assert(out@ =~= next + shown.take(i as int));
    }
    assert(shown.take(i as int) =~= shown);
    assert(out@ =~= carried(*c));
    out
}

fn find_last(list: &Vec<Provenance>, path: &str) -> (r: Option<usize>)
    ensures
        match r {
            Some(i) => i < list@.len() && last_of(list@, path@, list@.len() as int) == Some(
                list@[i as int],
            ) && list@[i as int].path@ == path@,
            None => !paths_of(list@).contains(path@),
        },
{
    let mut i: usize = list.len();
    while i > 0
        invariant
            i <= list@.len(),
            last_of(list@, path@, list@.len() as int) == last_of(list@, path@, i as int),
            forall|j: int| i <= j < list@.len() ==> (#[trigger] list@[j]).path@ != path@,
        decreases i,
    {
        i -= 1;
        if text::same(list[i].path.as_str(), path) {
            return Some(i);
        }
    }
    proof {
        if paths_of(list@).contains(path@) {
            let j = choose|j: int| 0 <= j < paths_of(list@).len() && paths_of(list@)[j] == path@;
            assert(list@[j].path@ == path@);
        }
    }
    None
}

/// Every file whose facts or content a context carries, bound by provenance, in
/// order of paths.
pub fn supports(c: &PlanningContext) -> (r: Vec<Provenance>)
    ensures
        supports_all(r@, carried(*c)),
{
    let list: Vec<Provenance> = collect_carried(c);
    let mut names: Vec<String> = Vec::new();
    let mut i: usize = 0;
    while i < list.len()
        invariant
            i <= list@.len(),
            names@.len() == i,
            forall|j: int| 0 <= j < i ==> (#[trigger] names@[j])@ == list@[j].path@,
        decreases list@.len() - i,
    {
        names.push(list[i].path.clone());
        i += 1;
    }
    assert(text::texts(names@) =~= paths_of(list@));
    let set: Vec<String> = text::set_of(&names);
    proof {
        text::lemma_in_order(text::texts(set@), paths_of(list@));
    }
    let ghost wanted = text::texts(set@);
    let mut out: Vec<Provenance> = Vec::new();
    let mut i: usize = 0;
    while i < set.len()
        invariant
            i <= set@.len(),
            wanted == text::texts(set@),
            forall|t: Seq<char>| #[trigger] wanted.contains(t) <==> paths_of(list@).contains(t),
            out@.len() == i,
            forall|j: int|
                0 <= j < i ==> (#[trigger] out@[j]).path@ == wanted[j] && Some(out@[j]) == last_of(
                    list@,
                    out@[j].path@,
                    list@.len() as int,
                ),
        decreases set@.len() - i,
    {
        proof {
            assert(wanted[i as int] == set@[i as int]@);
            assert(wanted.contains(wanted[i as int]));
        }
        let k: usize = find_last(&list, set[i].as_str()).unwrap();
        out.push(list[k].clone());
        i += 1;
    }
    assert(paths_of(out@) =~= wanted);
    out
}


// ---------------------------------------------------------------------------
// Shedding
// ---------------------------------------------------------------------------

/// The optional parts of a context.
#[verifier::ext_equal]
pub struct Parts {
    pub impact: bool,
    pub unresolved: Seq<String>,
    pub relations: Seq<Edge>,
    pub excerpts: Seq<SourceExcerpt>,
    pub neighbors: Seq<Entity>,
    pub tests: Seq<Entity>,
    pub memory: Seq<MemoryItem>,
    pub memory_truncated: bool,
    pub primary: Seq<Entity>,
}

/// The optional parts of a context.
pub open spec fn parts(c: PlanningContext) -> Parts {
    Parts {
        impact: c.impact is Some,
        unresolved: c.graph.unresolved@,
        relations: c.graph.relations@,
        excerpts: c.excerpts@,
        neighbors: c.graph.neighbors@,
        tests: c.graph.tests@,
        memory: c.memory.items@,
        memory_truncated: c.memory.truncated,
        primary: c.graph.primary@,
    }
}

/// How much of a context is optional.
pub open spec fn weight(p: Parts) -> nat {
    (if p.impact {
        1nat
    } else {
        0
    }) + p.unresolved.len() + p.relations.len() + p.excerpts.len() + p.neighbors.len()
        + p.tests.len() + p.memory.len() + p.primary.len()
}

/// The identifiers of some entities.
pub open spec fn entity_ids(list: Seq<Entity>) -> Seq<Seq<char>> {
    list.map_values(|e: Entity| e.id@)
}

/// Whether an entity is among the given ones.
pub open spec fn has_id(list: Seq<Entity>, id: Seq<char>) -> bool {
    entity_ids(list).contains(id)
}

/// Whether an excerpt shows one of some entities.
pub open spec fn shows_one_of(x: SourceExcerpt, list: Seq<Entity>) -> bool {
    x.entity matches Some(id) && has_id(list, id@)
}

/// The last of the first `k` excerpts that shows one of some entities.
pub open spec fn last_showing(list: Seq<SourceExcerpt>, of: Seq<Entity>, k: int) -> Option<int>
    decreases k,
{
    if k <= 0 {
        None
    } else if shows_one_of(list[k - 1], of) {
        Some(k - 1)
    } else {
        last_showing(list, of, k - 1)
    }
}

/// What is left after the least valuable part is dropped, before what referred
/// to it goes too: the impact outlook, unresolved names, relations, excerpts of
/// tests, neighbors, tests beyond the first, memory, further excerpts, the last
/// test, what was asked for beyond the first, the last excerpt, and last of all
/// what was asked for.
pub open spec fn dropped(p: Parts) -> Option<Parts> {
    let shown = last_showing(p.excerpts, p.tests, p.excerpts.len() as int);
    if p.impact {
        Some(Parts { impact: false, ..p })
    } else if p.unresolved.len() > 0 {
        Some(Parts { unresolved: p.unresolved.drop_last(), ..p })
    } else if p.relations.len() > 0 {
        Some(Parts { relations: p.relations.drop_last(), ..p })
    } else if shown is Some {
        Some(Parts { excerpts: p.excerpts.remove(shown->0), ..p })
    } else if p.neighbors.len() > 0 {
        Some(Parts { neighbors: p.neighbors.drop_last(), ..p })
    } else if p.tests.len() > 1 {
        Some(Parts { tests: p.tests.drop_last(), ..p })
    } else if p.memory.len() > 0 {
        Some(Parts { memory: p.memory.drop_last(), memory_truncated: true, ..p })
    } else if p.excerpts.len() > 1 {
        Some(Parts { excerpts: p.excerpts.drop_last(), ..p })
    } else if p.tests.len() > 0 {
        Some(Parts { tests: p.tests.drop_last(), ..p })
    } else if p.primary.len() > 1 {
        Some(Parts { primary: p.primary.drop_last(), ..p })
    } else if p.excerpts.len() > 0 {
        Some(Parts { excerpts: p.excerpts.drop_last(), ..p })
    } else if p.primary.len() > 0 {
        Some(Parts { primary: p.primary.drop_last(), ..p })
    } else {
        None
    }
}

/// Whether an entity is part of a context.
pub open spec fn present(p: Parts, id: Seq<char>) -> bool {
    has_id(p.primary, id) || has_id(p.neighbors, id) || has_id(p.tests, id)
}

/// Whether both ends of a relation are part of a context.
pub open spec fn anchored(p: Parts, e: Edge) -> bool {
    present(p, e.source@) && (e.target matches Some(t) ==> present(p, t@))
}

/// Whether what an excerpt shows is part of a context.
pub open spec fn attached(p: Parts, x: SourceExcerpt) -> bool {
    x.entity matches Some(id) ==> present(p, id@)
}

/// The relations from the `i`-th on whose ends are part of a context.
pub open spec fn anchored_from(p: Parts, list: Seq<Edge>, i: int) -> Seq<Edge>
    decreases list.len() - i,
{
    if i < 0 || i >= list.len() {
        Seq::empty()
    } else if anchored(p, list[i]) {
        seq![list[i]] + anchored_from(p, list, i + 1)
    } else {
        anchored_from(p, list, i + 1)
    }
}

/// The excerpts from the `i`-th on that show a part of a context.
pub open spec fn attached_from(p: Parts, list: Seq<SourceExcerpt>, i: int) -> Seq<SourceExcerpt>
    decreases list.len() - i,
{
    if i < 0 || i >= list.len() {
        Seq::empty()
    } else if attached(p, list[i]) {
        seq![list[i]] + attached_from(p, list, i + 1)
    } else {
        attached_from(p, list, i + 1)
    }
}

/// A context without the relations and excerpts whose entities are gone.
pub open spec fn pruned(p: Parts) -> Parts {
    Parts {
        relations: anchored_from(p, p.relations, 0),
        excerpts: attached_from(p, p.excerpts, 0),
        ..p
    }
}

/// What is left after shedding once, where anything optional was left.
pub open spec fn shed_once(p: Parts) -> Option<Parts> {
    match dropped(p) {
        Some(q) => Some(pruned(q)),
        None => None,
    }
}

fn has_entity(list: &Vec<Entity>, id: &str) -> (r: bool)
    ensures
        r == has_id(list@, id@),
{
    let mut i: usize = 0;
    while i < list.len()
        invariant
            i <= list@.len(),
            forall|j: int| 0 <= j < i ==> (#[trigger] list@[j]).id@ != id@,
        decreases list@.len() - i,
    {
        if text::same(list[i].id.as_str(), id) {
            assert(entity_ids(list@)[i as int] == id@);
            return true;
        }
        i += 1;
    }
    proof {
        if entity_ids(list@).contains(id@) {
            let j = choose|j: int| 0 <= j < entity_ids(list@).len() && entity_ids(list@)[j] == id@;
            assert(list@[j].id@ == id@);
        }
    }
    false
}

fn is_present(c: &PlanningContext, id: &str) -> (r: bool)
    ensures
        r == present(parts(*c), id@),
{
    has_entity(&c.graph.primary, id) || has_entity(&c.graph.neighbors, id) || has_entity(
        &c.graph.tests,
        id,
    )
}

fn last_test_excerpt(c: &PlanningContext) -> (r: Option<usize>)
    ensures
        match r {
            Some(i) => i < c.excerpts@.len() && last_showing(
                c.excerpts@,
                c.graph.tests@,
                c.excerpts@.len() as int,
            ) == Some(i as int),
            None => last_showing(c.excerpts@, c.graph.tests@, c.excerpts@.len() as int) is None,
        },
{
    let mut i: usize = c.excerpts.len();
    while i > 0
        invariant
            i <= c.excerpts@.len(),
            last_showing(c.excerpts@, c.graph.tests@, c.excerpts@.len() as int) == last_showing(
                c.excerpts@,
                c.graph.tests@,
                i as int,
            ),
        decreases i,
    {
        i -= 1;
        let shown: bool = match &c.excerpts[i].entity {
            Some(id) => has_entity(&c.graph.tests, id.as_str()),
            None => false,
        };
        if shown {
            return Some(i);
        }
    }
    None
}

fn copy_excerpt(x: &SourceExcerpt) -> (r: SourceExcerpt)
    ensures
        r == *x,
{
    SourceExcerpt {
        entity: x.entity.clone(),
        provenance: x.provenance.clone(),
        start_byte: x.start_byte,
        end_byte: x.end_byte,
        start_line: x.start_line,
        text: x.text.clone(),
        truncated: x.truncated,
    }
}

/// Drops the relations and excerpts whose entities are gone.
fn prune(c: &mut PlanningContext)
    ensures
        parts(*final(c)) == pruned(parts(*old(c))),
        keeps_the_rest(*old(c), *final(c)),
{
    let ghost p = parts(*c);
    let mut relations: Vec<Edge> = Vec::new();
    let mut i: usize = 0;
    while i < c.graph.relations.len()
        invariant
            i <= c.graph.relations@.len(),
            p == parts(*c),
            relations@ + anchored_from(p, p.relations, i as int) == anchored_from(
                p,
                p.relations,
                0,
            ),
        decreases c.graph.relations@.len() - i,
    {
        let ghost so_far = relations@;
        let e: &Edge = &c.graph.relations[i];
        let far: bool = match &e.target {
            Some(t) => is_present(c, t.as_str()),
            None => true,
        };
        if far && is_present(c, e.source.as_str()) {
            relations.push(e.clone());
            assert(relations@ + anchored_from(p, p.relations, i + 1) =~= so_far + (seq![
                p.relations[i as int],
            ] + anchored_from(p, p.relations, i + 1)));
        }
        i += 1;
    }
    assert(relations@ + anchored_from(p, p.relations, i as int) =~= relations@);
    let mut excerpts: Vec<SourceExcerpt> = Vec::new();
    let mut i: usize = 0;
    while i < c.excerpts.len()
        invariant
            i <= c.excerpts@.len(),
            p == parts(*c),
            excerpts@ + attached_from(p, p.excerpts, i as int) == attached_from(p, p.excerpts, 0),
        decreases c.excerpts@.len() - i,
    {
        let ghost so_far = excerpts@;
        let kept: bool = match &c.excerpts[i].entity {
            Some(id) => is_present(c, id.as_str()),
            None => true,
        };
        if kept {
            excerpts.push(copy_excerpt(&c.excerpts[i]));
            assert(excerpts@ + attached_from(p, p.excerpts, i + 1) =~= so_far + (seq![
                p.excerpts[i as int],
            ] + attached_from(p, p.excerpts, i + 1)));
        }
        i += 1;
    }
    assert(excerpts@ + attached_from(p, p.excerpts, i as int) =~= excerpts@);
    c.graph.relations = relations;
    c.excerpts = excerpts;
}

/// Whether a context differs in its optional parts alone.
pub open spec fn keeps_the_rest(before: PlanningContext, after: PlanningContext) -> bool {
    &&& after.graph.truncated == before.graph.truncated
    &&& after.graph.generation == before.graph.generation
    &&& after.policy == before.policy
    &&& after.invariants == before.invariants
    &&& after.limits == before.limits
    &&& after.truncated == before.truncated
}

/// Drops the least valuable optional part of a context and everything that
/// referred to it. Says whether there was any.
pub fn shed(c: &mut PlanningContext) -> (r: bool)
    ensures
        r == (shed_once(parts(*old(c))) is Some),
        r ==> parts(*final(c)) == shed_once(parts(*old(c)))->0,
        !r ==> parts(*final(c)) == parts(*old(c)),
        keeps_the_rest(*old(c), *final(c)),
{
    let ghost p = parts(*c);
    let shown: Option<usize> = last_test_excerpt(c);
    if c.impact.is_some() {
        c.impact = None;
        assert(parts(*c) =~= dropped(p)->0);
    } else if c.graph.unresolved.len() > 0 {
        c.graph.unresolved.pop();
        assert(parts(*c) =~= dropped(p)->0);
    } else if c.graph.relations.len() > 0 {
        c.graph.relations.pop();
        assert(parts(*c) =~= dropped(p)->0);
    } else if let Some(i) = shown {
        c.excerpts.remove(i);
        assert(parts(*c) =~= dropped(p)->0);
    } else if c.graph.neighbors.len() > 0 {
        c.graph.neighbors.pop();
        assert(parts(*c) =~= dropped(p)->0);
    } else if c.graph.tests.len() > 1 {
        c.graph.tests.pop();
        assert(parts(*c) =~= dropped(p)->0);
    } else if c.memory.items.len() > 0 {
        c.memory.items.pop();
        c.memory.truncated = true;
        assert(parts(*c) =~= dropped(p)->0);
    } else if c.excerpts.len() > 1 {
        c.excerpts.pop();
        assert(parts(*c) =~= dropped(p)->0);
    } else if c.graph.tests.len() > 0 {
        c.graph.tests.pop();
        assert(parts(*c) =~= dropped(p)->0);
    } else if c.graph.primary.len() > 1 {
        c.graph.primary.pop();
        assert(parts(*c) =~= dropped(p)->0);
    } else if c.excerpts.len() > 0 {
        c.excerpts.pop();
        assert(parts(*c) =~= dropped(p)->0);
    } else if c.graph.primary.len() > 0 {
        c.graph.primary.pop();
        assert(parts(*c) =~= dropped(p)->0);
    } else {
        return false;
    }
    prune(c);
    true
}

proof fn lemma_anchored_shorter(p: Parts, list: Seq<Edge>, i: int)
    requires
        0 <= i <= list.len(),
    ensures
        anchored_from(p, list, i).len() <= list.len() - i,
    decreases list.len() - i,
{
    if i < list.len() {
        lemma_anchored_shorter(p, list, i + 1);
    }
}

proof fn lemma_attached_shorter(p: Parts, list: Seq<SourceExcerpt>, i: int)
    requires
        0 <= i <= list.len(),
    ensures
        attached_from(p, list, i).len() <= list.len() - i,
    decreases list.len() - i,
{
    if i < list.len() {
        lemma_attached_shorter(p, list, i + 1);
    }
}

proof fn lemma_last_showing(list: Seq<SourceExcerpt>, of: Seq<Entity>, k: int)
    ensures
        last_showing(list, of, k) matches Some(i) ==> 0 <= i < k,
    decreases k,
{
    if k > 0 {
        lemma_last_showing(list, of, k - 1);
    }
}

/// Shedding makes a context smaller every time, so that it ends; and where it
/// cannot go on, nothing optional is left.
pub proof fn law_shedding_ends(p: Parts)
    ensures
        shed_once(p) matches Some(q) ==> weight(q) < weight(p),
        shed_once(p) is None <==> weight(p) == 0,
{
    lemma_last_showing(p.excerpts, p.tests, p.excerpts.len() as int);
    if let Some(q) = dropped(p) {
        lemma_anchored_shorter(q, q.relations, 0);
        lemma_attached_shorter(q, q.excerpts, 0);
    }
}

/// After shedding, every relation that is left joins entities that are left, and
/// every excerpt that is left shows one of them.
pub proof fn law_nothing_dangles(p: Parts)
    requires
        shed_once(p) is Some,
    ensures
        forall|i: int|
            0 <= i < (shed_once(p)->0).relations.len() ==> anchored(
                shed_once(p)->0,
                #[trigger] (shed_once(p)->0).relations[i],
            ),
        forall|j: int|
            0 <= j < (shed_once(p)->0).excerpts.len() ==> attached(
                shed_once(p)->0,
                #[trigger] (shed_once(p)->0).excerpts[j],
            ),
{
    let q = dropped(p)->0;
    assert forall|i: int| 0 <= i < (shed_once(p)->0).relations.len() implies anchored(
        shed_once(p)->0,
        #[trigger] (shed_once(p)->0).relations[i],
    ) by {
        lemma_anchored(q, q.relations, 0, i);
    }
    assert forall|j: int| 0 <= j < (shed_once(p)->0).excerpts.len() implies attached(
        shed_once(p)->0,
        #[trigger] (shed_once(p)->0).excerpts[j],
    ) by {
        lemma_attached(q, q.excerpts, 0, j);
    }
}

proof fn lemma_anchored(p: Parts, list: Seq<Edge>, from: int, i: int)
    requires
        0 <= from <= list.len(),
        0 <= i < anchored_from(p, list, from).len(),
    ensures
        anchored(p, anchored_from(p, list, from)[i]),
    decreases list.len() - from,
{
    if from < list.len() {
        if anchored(p, list[from]) {
            if i > 0 {
                lemma_anchored(p, list, from + 1, i - 1);
            }
        } else {
            lemma_anchored(p, list, from + 1, i);
        }
    }
}

proof fn lemma_attached(p: Parts, list: Seq<SourceExcerpt>, from: int, i: int)
    requires
        0 <= from <= list.len(),
        0 <= i < attached_from(p, list, from).len(),
    ensures
        attached(p, attached_from(p, list, from)[i]),
    decreases list.len() - from,
{
    if from < list.len() {
        if attached(p, list[from]) {
            if i > 0 {
                lemma_attached(p, list, from + 1, i - 1);
            }
        } else {
            lemma_attached(p, list, from + 1, i);
        }
    }
}

pub const BUDGET_RULE: &'static str =
    "required planning intent/policy exceeds byte budget; increase --bytes or narrow intent";

pub const STALE_GRAPH: &'static str =
    "planning requires a complete fresh graph; inspect repo index --status";

/// Refuses to plan against a graph that is not fresh or that nobody accepted.
pub fn check_graph(fresh: bool, unaccepted: &Option<String>) -> (r: Result<(), Error>)
    ensures
        crate::error::settles(
            r,
            if !fresh {
                Some(STALE_GRAPH@)
            } else {
                validation::message(*unaccepted)
            },
        ),
{
    if !fresh {
        return invalid(STALE_GRAPH);
    }
    validation::unless(unaccepted)
}

/// What a packet is made of, besides the intent.
#[derive(Debug)]
pub struct Gathered {
    pub graph: ContextPacket,
    pub memory: MemoryContext,
    pub invariants: Vec<Invariant>,
    pub excerpts: Vec<SourceExcerpt>,
    pub impact: Option<Vec<String>>,
}

/// Whether an excerpt was cut.
pub open spec fn any_cut(excerpts: Seq<SourceExcerpt>) -> bool {
    exists|i: int| 0 <= i < excerpts.len() && (#[trigger] excerpts[i]).truncated
}

fn is_cut(excerpts: &Vec<SourceExcerpt>) -> (r: bool)
    ensures
        r == any_cut(excerpts@),
{
    let mut i: usize = 0;
    while i < excerpts.len()
        invariant
            i <= excerpts@.len(),
            forall|j: int| 0 <= j < i ==> !(#[trigger] excerpts@[j]).truncated,
        decreases excerpts@.len() - i,
    {
        if excerpts[i].truncated {
            return true;
        }
        i += 1;
    }
    false
}

/// Puts a packet together that was not measured yet. Every invariant of the
/// project is critical to the intent, and what supports the context is the source
/// of the request.
pub fn assemble(
    request_id: PlanningRequestId,
    intent: RequestDraft,
    source: PlanningSource,
    created_at_ms: u64,
    policy: ProjectPolicy,
    gathered: Gathered,
    limits: PlanningLimits,
) -> (r: PlannerPacket)
    ensures
        text::texts(r.request.intent.invariant_refs@) == text::in_order(
            text::texts(intent.invariant_refs@) + keys(policy.invariants@),
        ),
        supports_all(r.request.source.support@, carried(r.context)),
        r == (PlannerPacket {
            artifact: PlanningArtifactKind::FrozenPlanningInput,
            request: PlanningRequest {
                version: ProtocolVersion::V1,
                request_id,
                intent: RequestDraft {
                    invariant_refs: r.request.intent.invariant_refs,
                    ..intent
                },
                source: PlanningSource { support: r.request.source.support, ..source },
                created_at_ms,
            },
            context: PlanningContext {
                graph: gathered.graph,
                memory: gathered.memory,
                policy,
                invariants: gathered.invariants,
                excerpts: gathered.excerpts,
                impact: gathered.impact,
                limits,
                truncated: gathered.graph.truncated || gathered.memory.truncated || any_cut(
                    gathered.excerpts@,
                ),
            },
            serialized_bytes: 0,
        }),
{
    let refs: Vec<String> = critical_refs(&intent.invariant_refs, &policy.invariants);
    let truncated: bool = gathered.graph.truncated || gathered.memory.truncated || is_cut(
        &gathered.excerpts,
    );
    let context: PlanningContext = PlanningContext {
        graph: gathered.graph,
        memory: gathered.memory,
        policy,
        invariants: gathered.invariants,
        excerpts: gathered.excerpts,
        impact: gathered.impact,
        limits,
        truncated,
    };
    let mut intent: RequestDraft = intent;
    intent.invariant_refs = refs;
    let mut source: PlanningSource = source;
    source.support = supports(&context);
    PlannerPacket {
        artifact: PlanningArtifactKind::FrozenPlanningInput,
        request: PlanningRequest {
            version: ProtocolVersion::V1,
            request_id,
            intent,
            source,
            created_at_ms,
        },
        context,
        serialized_bytes: 0,
    }
}

/// Whether a packet differs in its optional parts, in what supports them and in
/// being marked as truncated alone.
pub open spec fn asks_the_same(before: PlannerPacket, after: PlannerPacket) -> bool {
    &&& after.artifact == before.artifact
    &&& after.serialized_bytes == before.serialized_bytes
    &&& after.request.version == before.request.version
    &&& after.request.request_id == before.request.request_id
    &&& after.request.intent == before.request.intent
    &&& after.request.created_at_ms == before.request.created_at_ms
    &&& after.request.source.observation == before.request.source.observation
    &&& after.request.source.policy_hash == before.request.source.policy_hash
    &&& after.request.source.graph_version == before.request.source.graph_version
    &&& after.request.source.guarantee == before.request.source.guarantee
    &&& after.context.graph.generation == before.context.graph.generation
    &&& after.context.policy == before.context.policy
    &&& after.context.invariants == before.context.invariants
    &&& after.context.limits == before.context.limits
}

/// Takes a packet one step closer to its budget: accepts it where it fits, and
/// else drops its least valuable part, which it notes as truncation. Says
/// whether the packet fits. Its support always follows its context.
pub fn fit(packet: &mut PlannerPacket, limit: usize) -> (r: Result<bool, Error>)
    ensures
        old(packet).serialized_bytes <= limit ==> r == Ok::<bool, Error>(true) && *final(packet)
            == *old(packet),
        old(packet).serialized_bytes > limit ==> crate::error::settles(
            r,
            if weight(parts(old(packet).context)) == 0 {
                Some(BUDGET_RULE@)
            } else {
                None
            },
        ),
        old(packet).serialized_bytes > limit && r is Ok ==> {
            &&& r == Ok::<bool, Error>(false)
            &&& parts(final(packet).context) == shed_once(parts(old(packet).context))->0
            &&& final(packet).context.truncated
            &&& final(packet).context.graph.truncated
            &&& supports_all(final(packet).request.source.support@, carried(final(packet).context))
        },
        asks_the_same(*old(packet), *final(packet)),
        r is Err ==> final(packet).request == old(packet).request && parts(final(packet).context)
            == parts(old(packet).context),
{
    if packet.serialized_bytes <= limit {
        return Ok(true);
    }
    proof {
        law_shedding_ends(parts(packet.context));
    }
    packet.context.truncated = true;
    packet.context.graph.truncated = true;
    assert(parts(packet.context) =~= parts(old(packet).context));
    if !shed(&mut packet.context) {
        return invalid(BUDGET_RULE);
    }
    packet.request.source.support = supports(&packet.context);
    Ok(false)
}

// ---------------------------------------------------------------------------
// Storing
// ---------------------------------------------------------------------------

pub const MEMORY_PREFIX: &'static str = "memory:";

/// Why the memories of a packet from the `i`-th on can no longer be referred
/// to.
pub open spec fn memories_refusal(items: Seq<MemoryItem>, memory: Seq<Objection>, i: int) -> Option<
    Seq<char>,
>
    decreases items.len() - i,
{
    if i < 0 || i >= items.len() {
        None
    } else {
        crate::error::either(
            if text::begins(items[i].id@, MEMORY_PREFIX@) {
                validation::objection(memory, items[i].id@, 0)
            } else {
                None
            },
            memories_refusal(items, memory, i + 1),
        )
    }
}

pub const UNANSWERED: &'static str = "prepared packet does not answer its intent; retry";

pub const REQUEST_EXISTS: &'static str = "planning request already exists";

/// Whether a packet was prepared for an intent and within given limits: it asks
/// for the same, and the invariants that it names are those of the intent and of
/// the project policy that it carries, in order and each once.
pub open spec fn answers(packet: PlannerPacket, intent: RequestDraft, limits: PlanningLimits) -> bool {
    &&& packet.context.limits == limits
    &&& crate::planning::model::same_intent(packet.request.intent, intent)
    &&& text::texts(packet.request.intent.invariant_refs@) == text::in_order(
        text::texts(intent.invariant_refs@) + keys(packet.context.policy.invariants@),
    )
}

/// Why a packet is not what was to be prepared, if it is not.
pub open spec fn unprepared(packet: PlannerPacket, intent: RequestDraft, limits: PlanningLimits) -> Option<
    Seq<char>,
> {
    if !crate::planning::model::limits_ok(limits) {
        Some(LIMITS_RULE@)
    } else if !answers(packet, intent, limits) {
        Some(UNANSWERED@)
    } else if packet.serialized_bytes > limits.bytes {
        Some(BUDGET_RULE@)
    } else {
        None
    }
}

/// Checks that a packet is what was to be prepared.
pub fn check_prepared(packet: &PlannerPacket, intent: &RequestDraft, limits: &PlanningLimits) -> (r:
    Result<(), Error>)
    ensures
        crate::error::settles(r, unprepared(*packet, *intent, *limits)),
{
    if !limits.in_range() {
        return invalid(LIMITS_RULE);
    }
    let refs: Vec<String> = critical_refs(
        &intent.invariant_refs,
        &packet.context.policy.invariants,
    );
    if !(packet.context.limits == *limits && packet.request.intent.same(intent)
        && text::same_texts(&packet.request.intent.invariant_refs, &refs)) {
        return invalid(UNANSWERED);
    }
    if packet.serialized_bytes > limits.bytes {
        return invalid(BUDGET_RULE);
    }
    Ok(())
}

/// Whether a request of any workspace has an identity.
pub open spec fn request_known(requests: Seq<StoredRequest>, id: Seq<char>) -> bool {
    exists|i: int|
        0 <= i < requests.len() && (#[trigger] requests[i]).packet.request.request_id@ == id
}

fn is_request_known(requests: &Vec<StoredRequest>, id: &str) -> (r: bool)
    ensures
        r == request_known(requests@, id@),
{
    let mut i: usize = 0;
    while i < requests.len()
        invariant
            i <= requests@.len(),
            forall|k: int|
                0 <= k < i ==> (#[trigger] requests@[k]).packet.request.request_id@ != id@,
        decreases requests@.len() - i,
    {
        if text::same(requests[i].packet.request.request_id.as_str(), id) {
            return true;
        }
        i += 1;
    }
    false
}

/// Why a prepared packet cannot be stored, if anything: its source, its
/// invariants or its memories changed meanwhile.
pub open spec fn storing_refusal(
    packet: PlannerPacket,
    info: RepositoryInfo,
    policy: ProjectPolicy,
    source: SourceFacts,
    canonical: Seq<Invariant>,
    identifiers: Seq<Objection>,
    memory: Seq<Objection>,
) -> Option<Seq<char>> {
    let refs = text::texts(packet.request.intent.invariant_refs@);
    crate::error::either(
        validation::source_refusal(packet.request.source, info, source),
        crate::error::either(
            validation::invariants_refusal(refs, policy.invariants@, canonical, identifiers),
            if !validation::invariants_current(
                refs,
                policy.invariants@,
                canonical,
                packet.context.invariants@,
            ) || keys(packet.context.policy.invariants@) != keys(policy.invariants@) {
                Some("invariants changed during preparation; retry"@)
            } else {
                memories_refusal(packet.context.memory.items@, memory, 0)
            },
        ),
    )
}

/// Checks a prepared packet once more before it is stored.
pub fn recheck(
    packet: &PlannerPacket,
    info: &RepositoryInfo,
    policy: &ProjectPolicy,
    source: &SourceFacts,
    canonical: &Vec<Invariant>,
    identifiers: &Vec<Objection>,
    memory: &Vec<Objection>,
) -> (r: Result<(), Error>)
    ensures
        crate::error::settles(
            r,
            storing_refusal(
                *packet,
                *info,
                *policy,
                *source,
                canonical@,
                identifiers@,
                memory@,
            ),
        ),
{
    match validation::source_matches(&packet.request.source, info, source) {
        Ok(()) => {},
        Err(e) => return Err(e),
    }
    let refs: &Vec<String> = &packet.request.intent.invariant_refs;
    match validation::validate_invariants(refs, &policy.invariants, canonical, identifiers) {
        Ok(()) => {},
        Err(e) => return Err(e),
    }
    if !validation::invariants_unchanged(
        refs,
        &policy.invariants,
        canonical,
        &packet.context.invariants,
    ) || !same_keys(&packet.context.policy.invariants, &policy.invariants) {
        return invalid("invariants changed during preparation; retry");
    }
    let items: &Vec<MemoryItem> = &packet.context.memory.items;
    let mut i: usize = 0;
    while i < items.len()
        invariant
            items == packet.context.memory.items,
            i <= items@.len(),
            storing_refusal(
                *packet,
                *info,
                *policy,
                *source,
                canonical@,
                identifiers@,
                memory@,
            ) == memories_refusal(items@, memory@, i as int),
        decreases items@.len() - i,
    {
        let id: &str = items[i].id.as_str();
        if text::starts_with(id, MEMORY_PREFIX) {
            match validation::unopposed(memory, id) {
                Ok(()) => {},
                Err(e) => return Err(e),
            }
        }
        i += 1;
    }
    Ok(())
}

/// Whether a store is as before but for its requests and its journal.
pub open spec fn only_requests_changed(before: Store, after: Store) -> bool {
    &&& after.plans == before.plans
    &&& after.jobs == before.jobs
    &&& after.experiments == before.experiments
    &&& after.events == before.events
    &&& after.decisions == before.decisions
    &&& after.cursors == before.cursors
}

impl Store {
    /// Stores the packet that was prepared for an intent, unless it is not within
    /// its limits, what it was prepared from changed meanwhile, or its identity is
    /// taken; and gives it back as it is stored.
    pub fn prepare_plan(
        &mut self,
        intent: &RequestDraft,
        limits: &PlanningLimits,
        packet: PlannerPacket,
        info: &RepositoryInfo,
        policy: &ProjectPolicy,
        source: &SourceFacts,
        canonical: &Vec<Invariant>,
        identifiers: &Vec<Objection>,
        memory: &Vec<Objection>,
    ) -> (r: Result<&PlannerPacket, Error>)
        ensures
            crate::error::settles(
                r,
                crate::error::either(
                    unprepared(packet, *intent, *limits),
                    crate::error::either(
                        storing_refusal(
                            packet,
                            *info,
                            *policy,
                            *source,
                            canonical@,
                            identifiers@,
                            memory@,
                        ),
                        if request_known(old(self).requests@, packet.request.request_id@) {
                            Some(REQUEST_EXISTS@)
                        } else {
                            None
                        },
                    ),
                ),
            ),
            r is Err ==> *final(self) == *old(self),
            r matches Ok(p) ==> {
                &&& *p == packet
                &&& p.serialized_bytes <= limits.bytes
                &&& crate::planning::model::limits_ok(*limits)
                &&& answers(packet, *intent, *limits)
                &&& text::texts(p.request.intent.invariant_refs@) == text::in_order(
                    text::texts(intent.invariant_refs@) + keys(policy.invariants@),
                )
                &&& only_requests_changed(*old(self), *final(self))
                &&& final(self).requests@.len() == old(self).requests@.len() + 1
                &&& final(self).requests@.drop_last() == old(self).requests@
                &&& final(self).requests@.last().packet == packet
                &&& final(self).requests@.last().workspace_id@ == info.workspace_id@
                &&& final(self).journal@.len() == old(self).journal@.len() + 1
                &&& final(self).journal@.drop_last() == old(self).journal@
                &&& final(self).journal@.last() matches JournalEntry::PlanningRequestCreated {
                    request_id,
                } && request_id@ == packet.request.request_id@
            },
    {
        match check_prepared(&packet, intent, limits) {
            Ok(()) => {},
            Err(e) => return Err(e),
        }
        match recheck(&packet, info, policy, source, canonical, identifiers, memory) {
            Ok(()) => {},
            Err(e) => return Err(e),
        }
        if is_request_known(&self.requests, packet.request.request_id.as_str()) {
            return invalid(REQUEST_EXISTS);
        }
        let ghost (requests, journal) = (self.requests@, self.journal@);
        self.journal.push(
            JournalEntry::PlanningRequestCreated {
                request_id: packet.request.request_id.as_str().to_owned(),
            },
        );
        self.requests.push(StoredRequest { workspace_id: info.workspace_id.clone(), packet });
        assert(self.requests@.drop_last() =~= requests);
        assert(self.journal@.drop_last() =~= journal);
        Ok(&self.requests[self.requests.len() - 1].packet)
    }

    /// The packet of a prepared request.
    pub fn planning_context(&self, workspace: &WorkspaceId, id: &PlanningRequestId) -> (r: Result<
        &PlannerPacket,
        Error,
    >)
        ensures
            match crate::store::request_at(self.requests@, workspace@, id@, 0) {
                Some(k) => r matches Ok(p) && *p == self.requests@[k].packet,
                None => crate::error::refused(r, REQUEST_NOT_FOUND@),
            },
    {
        match self.find_request(workspace, id.as_str()) {
            Some(k) => Ok(&self.requests[k].packet),
            None => invalid(REQUEST_NOT_FOUND),
        }
    }
}

proof fn lemma_request_unknown(
    requests: Seq<StoredRequest>,
    workspace: Seq<char>,
    id: Seq<char>,
    i: int,
)
    requires
        0 <= i,
        !request_known(requests, id),
    ensures
        crate::store::request_at(requests, workspace, id, i) is None,
    decreases requests.len() - i,
{
    if i < requests.len() {
        assert(requests[i].packet.request.request_id@ != id);
        lemma_request_unknown(requests, workspace, id, i + 1);
    }
}

proof fn lemma_requests_appended(
    before: Seq<StoredRequest>,
    after: Seq<StoredRequest>,
    workspace: Seq<char>,
    id: Seq<char>,
    i: int,
)
    requires
        0 <= i <= before.len() <= after.len(),
        after.take(before.len() as int) == before,
    ensures
        crate::store::request_at(after, workspace, id, i) == match crate::store::request_at(
            before,
            workspace,
            id,
            i,
        ) {
            Some(k) => Some(k),
            None => crate::store::request_at(after, workspace, id, before.len() as int),
        },
        crate::store::request_at(before, workspace, id, i) matches Some(k) ==> i <= k
            < before.len() && after[k] == before[k],
    decreases before.len() - i,
{
    if i < before.len() {
        assert(after.take(before.len() as int)[i] == after[i]);
        lemma_requests_appended(before, after, workspace, id, i + 1);
    }
}

/// A packet that was stored is what is read back under its identity, from its own
/// workspace alone, whatever else changes: it is frozen. `Store::prepare_plan`
/// leads from `before` to `after` so; `later` are the requests at any later time,
/// which others were added to; and `Store::planning_context` reads by `request_at`.
pub proof fn law_a_prepared_request_is_found(
    before: Seq<StoredRequest>,
    after: Seq<StoredRequest>,
    later: Seq<StoredRequest>,
    workspace: Seq<char>,
    packet: PlannerPacket,
)
    requires
        !request_known(before, packet.request.request_id@),
        after.len() == before.len() + 1,
        after.drop_last() == before,
        after.last().workspace_id@ == workspace,
        after.last().packet == packet,
        after.len() <= later.len(),
        later.take(after.len() as int) == after,
    ensures
        crate::store::request_at(later, workspace, packet.request.request_id@, 0) == Some(
            after.len() - 1,
        ),
        later[after.len() - 1].packet == packet,
        forall|other: Seq<char>|
            other != workspace ==> #[trigger] crate::store::request_at(
                after,
                other,
                packet.request.request_id@,
                0,
            ) is None,
{
    let id = packet.request.request_id@;
    let n = before.len() as int;
    assert(after.take(n) =~= before);
    lemma_request_unknown(before, workspace, id, 0);
    lemma_requests_appended(before, after, workspace, id, 0);
    assert(after[n] == after.last());
    lemma_requests_appended(after, later, workspace, id, 0);
    assert forall|other: Seq<char>| other != workspace implies #[trigger] crate::store::request_at(
        after,
        other,
        id,
        0,
    ) is None by {
        lemma_request_unknown(before, other, id, 0);
        lemma_requests_appended(before, after, other, id, 0);
        assert(crate::store::request_at(after, other, id, n + 1) is None);
    }
}

proof fn lemma_content(list: Seq<Invariant>, key: Seq<char>, i: int)
    requires
        0 <= i,
    ensures
        validation::entries(list, key, i) >= 0,
        validation::entries(list, key, i) > 0 ==> validation::content_of(list, key, i) is Some,
        validation::content_of(list, key, i) is Some ==> exists|j: int|
            i <= j < list.len() && (#[trigger] list[j]).key@ == key,
    decreases list.len() - i,
{
    if i < list.len() {
        lemma_content(list, key, i + 1);
        if list[i].key@ == key {
            assert(list[i].key@ == key);
        }
    }
}

proof fn lemma_known_refs(
    refs: Seq<Seq<char>>,
    policy: Seq<Invariant>,
    canonical: Seq<Invariant>,
    identifiers: Seq<Objection>,
    i: int,
    k: int,
)
    requires
        0 <= i <= k < refs.len(),
        validation::invariant_refs_refusal(refs, policy, canonical, identifiers, i) is None,
    ensures
        validation::invariant_text(policy, canonical, refs[k]) is Some,
    decreases k - i,
{
    if i == k {
        lemma_content(canonical, refs[k], 0);
    } else {
        lemma_known_refs(refs, policy, canonical, identifiers, i + 1, k);
    }
}

/// A packet that may be stored holds exactly the invariants that it refers to: a
/// key has a text in it if and only if the request names the key.
pub proof fn law_prepared_invariants_are_the_referenced_ones(
    packet: PlannerPacket,
    info: RepositoryInfo,
    policy: ProjectPolicy,
    source: SourceFacts,
    canonical: Seq<Invariant>,
    identifiers: Seq<Objection>,
    memory: Seq<Objection>,
    key: Seq<char>,
)
    requires
        storing_refusal(packet, info, policy, source, canonical, identifiers, memory) is None,
    ensures
        text::texts(packet.request.intent.invariant_refs@).contains(key) <==> exists|j: int|
            0 <= j < packet.context.invariants@.len() && (
            #[trigger] packet.context.invariants@[j]).key@ == key,
{
    let refs = text::texts(packet.request.intent.invariant_refs@);
    let prepared = packet.context.invariants@;
    if refs.contains(key) {
        let k = choose|k: int| 0 <= k < refs.len() && refs[k] == key;
        lemma_known_refs(refs, policy.invariants@, canonical, identifiers, 0, k);
        lemma_content(prepared, key, 0);
    }
}

} // verus!
