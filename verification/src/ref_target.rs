//! What a tag points to.

use crate::commit_id::CommitId;
use vstd::prelude::*;

verus! {

/// The mathematical value of a [`RefTarget`].
pub enum TargetView {
    /// No tag of that name exists.
    Absent,
    /// The tag points at one commit.
    Normal(Seq<u8>),
    /// The tag points at several commits at once.
    Conflicted(Seq<Seq<u8>>),
}

/// What a tag points to: nothing, one commit, or the commits of an
/// unresolved conflict.
#[derive(Debug, PartialEq, Eq)]
pub enum RefTarget {
    /// No tag of that name exists.
    Absent,
    /// The tag points at one commit.
    Normal(CommitId),
    /// The tag points at several commits at once.
    Conflicted(Vec<CommitId>),
}

/// The identities in `ids`, each by its bytes.
pub open spec fn ids_view(ids: Seq<CommitId>) -> Seq<Seq<u8>> {
    ids.map_values(|id: CommitId| id@)
}

impl View for RefTarget {
    type V = TargetView;

    open spec fn view(&self) -> TargetView {
        match self {
            RefTarget::Absent => TargetView::Absent,
            RefTarget::Normal(id) => TargetView::Normal(id@),
            RefTarget::Conflicted(ids) => TargetView::Conflicted(ids_view(ids@)),
        }
    }
}

impl Clone for RefTarget {
    fn clone(&self) -> (copy: Self)
        ensures
            copy@ == self@,
    {
        match self {
            RefTarget::Absent => RefTarget::Absent,
            RefTarget::Normal(id) => RefTarget::Normal(id.clone()),
            RefTarget::Conflicted(ids) => {
                let mut copies: Vec<CommitId> = Vec::new();
                let mut i: usize = 0;
                while i < ids.len()
                    invariant
                        i <= ids.len(),
                        copies.len() == i,
                        forall|j: int| 0 <= j < i ==> copies[j]@ == ids[j]@,
                    decreases ids.len() - i,
                {
                    copies.push(ids[i].clone());
                    i += 1;
                }
                assert(ids_view(copies@) =~= ids_view(ids@));
                RefTarget::Conflicted(copies)
            },
        }
    }
}

impl RefTarget {
    /// The target of a tag that does not exist.
    pub fn absent() -> (target: Self)
        ensures
            target@ == TargetView::Absent,
    {
        RefTarget::Absent
    }

    /// The target that points at `id` alone.
    pub fn normal(id: CommitId) -> (target: Self)
        ensures
            target@ == TargetView::Normal(id@),
    {
        RefTarget::Normal(id)
    }

    /// Whether this is the target of a tag that does not exist.
    pub fn is_absent(&self) -> (absent: bool)
        ensures
            absent == (self@ is Absent),
    {
        match self {
            RefTarget::Absent => true,
            _ => false,
        }
    }

    /// Whether this target points at any commit. A conflicted target does.
    pub fn is_present(&self) -> (present: bool)
        ensures
            present == !(self@ is Absent),
    {
        !self.is_absent()
    }

    /// Whether this target points at several commits at once.
    pub fn has_conflict(&self) -> (conflicted: bool)
        ensures
            conflicted == (self@ is Conflicted),
    {
        match self {
            RefTarget::Conflicted(_) => true,
            _ => false,
        }
    }

    /// The commit, where this target points at exactly one.
    pub fn as_normal(&self) -> (id: Option<&CommitId>)
        ensures
            match id {
                Some(id) => self@ == TargetView::Normal(id@),
                None => !(self@ is Normal),
            },
    {
        match self {
            RefTarget::Normal(id) => Some(id),
            _ => None,
        }
    }
}

} // verus!
