//! When a request, and the source that it was prepared from, is accepted.
use crate::graph::Provenance;
use crate::planning::model::{Invariant, PlanningProvenance, PlanningSource, RequestDraft};
use crate::planning::scope::ScopePath;
use crate::planning::validation;
use crate::planning::validation::{IndexedSource, IntentFacts, Objection, SourceFacts};
use crate::repository::RepositoryInfo;
use crate::text;
use vstd::prelude::*;

verus! {

/// Whether a text says something, holds no NUL and is not too long.
pub open spec fn says(s: Seq<char>, max: int) -> bool {
    !text::blank(s) && !s.contains('\0') && text::size(s) <= max
}

proof fn lemma_each(values: Seq<Seq<char>>, name: Seq<char>, i: int)
    requires
        0 <= i,
    ensures
        validation::each_text_refusal(values, name, i) is None <==> forall|n: int|
            i <= n < values.len() ==> says(#[trigger] values[n], 1024),
    decreases values.len() - i,
{
    if i < values.len() {
        lemma_each(values, name, i + 1);
        if validation::text_refusal(values[i], 1024, name) is Some {
            assert(!says(values[i], 1024));
        }
    }
}

/// Texts are accepted exactly where there are at most 32, and each says something in at
/// most 1024 bytes.
pub proof fn law_texts_are_accepted_where_each_says_something(
    values: Seq<Seq<char>>,
    name: Seq<char>,
)
    ensures
        validation::texts_refusal(values, name) is None <==> values.len() <= 32 && forall|n: int|
            0 <= n < values.len() ==> says(#[trigger] values[n], 1024),
{
    lemma_each(values, name, 0);
}

/// Whether texts are few, and each says something.
pub open spec fn all_say(values: Seq<String>) -> bool {
    values.len() <= 32 && forall|n: int|
        0 <= n < values.len() ==> says((#[trigger] values[n])@, 1024)
}

proof fn lemma_all_say(values: Seq<String>, name: Seq<char>)
    ensures
        validation::texts_refusal(text::texts(values), name) is None <==> all_say(values),
{
    law_texts_are_accepted_where_each_says_something(text::texts(values), name);
    if all_say(values) {
        assert forall|n: int| 0 <= n < text::texts(values).len() implies says(
            #[trigger] text::texts(values)[n],
            1024,
        ) by {
            assert(says(values[n]@, 1024));
        }
    }
    if validation::texts_refusal(text::texts(values), name) is None {
        assert forall|n: int| 0 <= n < values.len() implies says((#[trigger] values[n])@, 1024) by {
            assert(says(text::texts(values)[n], 1024));
        }
    }
}

/// Whether nothing in a list objects to a subject.
pub open spec fn unopposed(list: Seq<Objection>, subject: Seq<char>) -> bool {
    forall|n: int| 0 <= n < list.len() ==> (#[trigger] list[n]).subject@ != subject
}

proof fn lemma_unopposed(list: Seq<Objection>, subject: Seq<char>, i: int)
    requires
        0 <= i,
    ensures
        validation::objection(list, subject, i) is None <==> forall|n: int|
            i <= n < list.len() ==> (#[trigger] list[n]).subject@ != subject,
    decreases list.len() - i,
{
    if i < list.len() {
        lemma_unopposed(list, subject, i + 1);
    }
}

/// A subject is objected to exactly where some objection names it.
pub proof fn law_unopposed_subjects_have_no_objection(list: Seq<Objection>, subject: Seq<char>)
    ensures
        validation::objection(list, subject, 0) is None <==> unopposed(list, subject),
{
    lemma_unopposed(list, subject, 0);
}

proof fn lemma_scope_paths(scopes: Seq<ScopePath>, paths: Seq<Objection>, i: int)
    requires
        0 <= i,
    ensures
        validation::scope_paths_refusal(scopes, paths, i) is None <==> forall|n: int|
            i <= n < scopes.len() ==> unopposed(paths, (#[trigger] scopes[n]).at()),
    decreases scopes.len() - i,
{
    if i < scopes.len() {
        lemma_scope_paths(scopes, paths, i + 1);
        lemma_unopposed(paths, scopes[i].at(), 0);
        if validation::objection(paths, scopes[i].at(), 0) is Some {
            assert(!unopposed(paths, scopes[i].at()));
        }
    }
}

/// Whether it is said who planned, and from what.
pub open spec fn attributed(p: PlanningProvenance, provider_refusal: Option<String>) -> bool {
    &&& says(p.actor@, 128)
    &&& p.source_refs@.len() > 0
    &&& all_say(p.source_refs@)
    &&& p.provider is Some ==> provider_refusal is None
}

/// A request is accepted exactly where it says what is wanted and who wants it, keeps to
/// the limits, and names only paths and checks that nothing stands against.
pub proof fn law_requests_are_accepted_where_complete(d: RequestDraft, facts: IntentFacts)
    ensures
        validation::intent_refusal(d, facts) is None <==> {
            &&& says(d.objective@, 4096)
            &&& attributed(d.provenance, facts.provider_refusal)
            &&& d.query is Some ==> says(d.query->0@, 512)
            &&& all_say(d.constraints@)
            &&& all_say(d.definition_of_done@)
            &&& facts.bytes <= 16384
            &&& d.scope@.len() <= 32
            &&& d.invariant_refs@.len() <= 32
            &&& forall|n: int|
                0 <= n < d.scope@.len() ==> unopposed(facts.paths@, (#[trigger] d.scope@[n]).at())
            &&& d.verification is Some ==> facts.verification_refusal is None
        },
{
    lemma_all_say(d.provenance.source_refs@, "provenance refs"@);
    lemma_all_say(d.constraints@, "constraints"@);
    lemma_all_say(d.definition_of_done@, "done criteria"@);
    lemma_scope_paths(d.scope@, facts.paths@, 0);
}

/// Whether a captured file is still what it was: indexed by the same backend, with the
/// same content, and unchanged since.
pub open spec fn unchanged(p: Provenance, info: RepositoryInfo, indexed: Seq<IndexedSource>) -> bool {
    &&& p.repository_id@ == info.repository_id@
    &&& p.workspace_id@ == info.workspace_id@
    &&& p.backend@ == p.language_backend@
    &&& exists|k: int|
        {
            &&& 0 <= k < indexed.len()
            &&& (#[trigger] indexed[k]).path@ == p.path@
            &&& forall|j: int| 0 <= j < k ==> (#[trigger] indexed[j]).path@ != p.path@
            &&& indexed[k].content_hash is Some
            &&& indexed[k].content_hash->0@ == p.content_hash@
            &&& indexed[k].backend@ == p.backend@
            &&& indexed[k].diagnostic is None
            &&& indexed[k].current is Some
            &&& indexed[k].current->0@ == p.content_hash@
        }
}

proof fn lemma_indexed_at(indexed: Seq<IndexedSource>, path: Seq<char>, i: int)
    requires
        0 <= i,
    ensures
        match validation::indexed_at(indexed, path, i) {
            Some(k) => i <= k < indexed.len() && indexed[k].path@ == path && forall|j: int|
                i <= j < k ==> (#[trigger] indexed[j]).path@ != path,
            None => forall|j: int| i <= j < indexed.len() ==> (#[trigger] indexed[j]).path@ != path,
        },
    decreases indexed.len() - i,
{
    if i < indexed.len() {
        lemma_indexed_at(indexed, path, i + 1);
    }
}

proof fn lemma_unchanged(p: Provenance, info: RepositoryInfo, indexed: Seq<IndexedSource>)
    ensures
        validation::support_refusal(p, info, indexed) is None <==> unchanged(p, info, indexed),
{
    lemma_indexed_at(indexed, p.path@, 0);
    if validation::support_refusal(p, info, indexed) is None {
        let k = validation::indexed_at(indexed, p.path@, 0)->0;
        assert(indexed[k].path@ == p.path@);
    }
    if unchanged(p, info, indexed) {
        let k = choose|k: int|
            {
                &&& 0 <= k < indexed.len()
                &&& (#[trigger] indexed[k]).path@ == p.path@
                &&& forall|j: int| 0 <= j < k ==> (#[trigger] indexed[j]).path@ != p.path@
                &&& indexed[k].content_hash is Some
                &&& indexed[k].content_hash->0@ == p.content_hash@
                &&& indexed[k].backend@ == p.backend@
                &&& indexed[k].diagnostic is None
                &&& indexed[k].current is Some
                &&& indexed[k].current->0@ == p.content_hash@
            };
        let at = validation::indexed_at(indexed, p.path@, 0);
        assert(indexed[k].path@ == p.path@);
        assert(at is Some);
        assert(at->0 == k);
    }
}

proof fn lemma_supports(
    support: Seq<Provenance>,
    info: RepositoryInfo,
    indexed: Seq<IndexedSource>,
    i: int,
    n: int,
)
    requires
        0 <= i,
    ensures
        validation::supports_refusal(support, info, indexed, i) is None && i <= n < support.len()
            ==> validation::support_refusal(support[n], info, indexed) is None,
        (forall|m: int|
            i <= m < support.len() ==> validation::support_refusal(
                #[trigger] support[m],
                info,
                indexed,
            ) is None) ==> validation::supports_refusal(support, info, indexed, i) is None,
    decreases support.len() - i,
{
    if i < support.len() {
        lemma_supports(support, info, indexed, i + 1, n);
    }
}

/// A prepared source is accepted only where it is of this repository and workspace, at
/// the same commit and as clean, under the same index and policy, and every file that it
/// was made from is unchanged.
pub proof fn law_prepared_sources_are_unchanged(
    s: PlanningSource,
    info: RepositoryInfo,
    facts: SourceFacts,
    n: int,
)
    requires
        validation::source_refusal(s, info, facts) is None,
    ensures
        s.observation.repository_id@ == info.repository_id@,
        s.observation.workspace_id@ == info.workspace_id@,
        s.observation.head_commit is Some <==> info.source.head_commit is Some,
        s.observation.head_commit is Some ==> s.observation.head_commit->0@
            == info.source.head_commit->0@,
        s.observation.dirty == info.source.dirty,
        s.observation.worktree_fingerprint is None,
        s.graph_version@ == facts.index_version@,
        s.policy_hash@ == facts.policy_hash@,
        s.support@.len() <= 16,
        0 <= n < s.support@.len() ==> unchanged(s.support@[n], info, facts.indexed@),
{
    lemma_supports(s.support@, info, facts.indexed@, 0, n);
    if 0 <= n < s.support@.len() {
        lemma_unchanged(s.support@[n], info, facts.indexed@);
    }
}

/// A prepared source of which all of this holds is accepted.
pub proof fn law_unchanged_sources_are_accepted(
    s: PlanningSource,
    info: RepositoryInfo,
    facts: SourceFacts,
)
    requires
        s.observation.repository_id@ == info.repository_id@,
        s.observation.workspace_id@ == info.workspace_id@,
        text::same_option(s.observation.head_commit, info.source.head_commit),
        s.observation.dirty == info.source.dirty,
        s.observation.worktree_fingerprint is None,
        s.graph_version@ == facts.index_version@,
        s.policy_hash@ == facts.policy_hash@,
        s.support@.len() <= 16,
        forall|n: int|
            0 <= n < s.support@.len() ==> unchanged(
                #[trigger] s.support@[n],
                info,
                facts.indexed@,
            ),
    ensures
        validation::source_refusal(s, info, facts) is None,
{
    assert forall|m: int| 0 <= m < s.support@.len() implies validation::support_refusal(
        #[trigger] s.support@[m],
        info,
        facts.indexed@,
    ) is None by {
        lemma_unchanged(s.support@[m], info, facts.indexed@);
    }
    lemma_supports(s.support@, info, facts.indexed@, 0, 0);
}

/// Prepared invariants are current exactly where each that is named still has the text it
/// was prepared with, that of the project's policy before that of the memory.
pub proof fn law_current_invariants_keep_their_text(
    refs: Seq<Seq<char>>,
    policy: Seq<Invariant>,
    canonical: Seq<Invariant>,
    prepared: Seq<Invariant>,
    r: int,
    n: int,
    j: int,
)
    requires
        validation::invariants_current(refs, policy, canonical, prepared),
        0 <= r < refs.len(),
        0 <= n < prepared.len(),
        prepared[n].key@ == refs[r],
        forall|m: int| 0 <= m < n ==> (#[trigger] prepared[m]).key@ != refs[r],
    ensures
        0 <= j < policy.len() && policy[j].key@ == refs[r] && (forall|m: int|
            0 <= m < j ==> (#[trigger] policy[m]).key@ != refs[r]) ==> prepared[n].content@
            == policy[j].content@,
        (forall|m: int| 0 <= m < policy.len() ==> (#[trigger] policy[m]).key@ != refs[r]) && 0 <= j
            < canonical.len() && canonical[j].key@ == refs[r] && (forall|m: int|
            0 <= m < j ==> (#[trigger] canonical[m]).key@ != refs[r]) ==> prepared[n].content@
            == canonical[j].content@,
{
    lemma_content_of(prepared, refs[r], 0, n);
    lemma_content_of(policy, refs[r], 0, j);
    lemma_content_of(canonical, refs[r], 0, j);
    assert(validation::content_of(prepared, refs[r], 0) == validation::invariant_text(
        policy,
        canonical,
        refs[r],
    ));
}

proof fn lemma_content_of(list: Seq<Invariant>, key: Seq<char>, i: int, n: int)
    requires
        0 <= i,
    ensures
        i <= n < list.len() && list[n].key@ == key && (forall|m: int|
            i <= m < n ==> (#[trigger] list[m]).key@ != key) ==> validation::content_of(
            list,
            key,
            i,
        ) == Some(list[n].content@),
        (forall|m: int| i <= m < list.len() ==> (#[trigger] list[m]).key@ != key)
            ==> validation::content_of(list, key, i) is None,
    decreases list.len() - i,
{
    if i < list.len() && list[i].key@ != key {
        lemma_content_of(list, key, i + 1, n);
    }
}

} // verus!
