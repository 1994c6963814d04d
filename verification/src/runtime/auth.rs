//! The capability that a running controller holds. Records of a run may be
//! written only under it.
use crate::text;
use vstd::prelude::*;

verus! {

/// A capability to write the records of one owner and one session of a
/// repository. Once it is revoked it is gone for good.
#[derive(Debug)]
pub struct Permit {
    enabled: bool,
    repository: String,
    owner: String,
    session: String,
}

impl Permit {
    pub closed spec fn active(&self) -> bool {
        self.enabled
    }

    /// The repository, the owner and the session that it was made for.
    pub closed spec fn bound(&self) -> (Seq<char>, Seq<char>, Seq<char>) {
        (self.repository@, self.owner@, self.session@)
    }

    pub fn authorize(repository: &str, owner: &str, session: &str) -> (r: Self)
        ensures
            r.active(),
            r.bound() == (repository@, owner@, session@),
    {
        Permit {
            enabled: true,
            repository: repository.to_owned(),
            owner: owner.to_owned(),
            session: session.to_owned(),
        }
    }

    /// Whether the records of an owner may be written.
    pub fn allows(&self, repository: &str, owner: &str) -> (r: bool)
        ensures
            r == (self.active() && self.bound().0 == repository@ && self.bound().1 == owner@),
    {
        self.enabled && text::same(self.repository.as_str(), repository) && text::same(
            self.owner.as_str(),
            owner,
        )
    }

    /// Whether the records of a session of an owner may be written.
    pub fn allows_session(&self, repository: &str, owner: &str, session: &str) -> (r: bool)
        ensures
            r == (self.active() && self.bound() == (repository@, owner@, session@)),
    {
        self.allows(repository, owner) && text::same(self.session.as_str(), session)
    }

    pub fn revoke(&mut self)
        ensures
            !final(self).active(),
            final(self).bound() == old(self).bound(),
    {
        self.enabled = false;
    }
}

} // verus!
