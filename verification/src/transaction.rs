//! Changes to the tags of a view are staged in a transaction and become a
//! new view only when the transaction is committed; the view that the
//! transaction started from is never touched.

use crate::error::{CommitFailure, TagError, TagErrorView};
use crate::ref_target::{RefTarget, TargetView};
use crate::registry::TagRegistry;
use vstd::prelude::*;

verus! {

/// A scoped set of changes to the tags of one view, not yet visible to
/// anyone else.
#[derive(Debug, PartialEq, Eq)]
pub struct Transaction {
    staged: TagRegistry,
}

impl View for Transaction {
    type V = Map<Seq<char>, TargetView>;

    /// The tags as they stand in this transaction.
    closed spec fn view(&self) -> Map<Seq<char>, TargetView> {
        self.staged@
    }
}

/// The mathematical value of a [`PendingCommit`].
pub struct PendingView {
    /// The tags of the view that the commit would make visible.
    pub tags: Map<Seq<char>, TargetView>,
    /// The description under which it is recorded.
    pub description: Seq<char>,
}

/// A finished transaction on its way to the operation store: the view that
/// becomes visible if the store accepts it, and the description of the
/// operation.
#[derive(Debug, PartialEq, Eq)]
pub struct PendingCommit {
    view: TagRegistry,
    description: String,
}

impl View for PendingCommit {
    type V = PendingView;

    closed spec fn view(&self) -> PendingView {
        PendingView { tags: self.view@, description: self.description@ }
    }
}

impl Transaction {
    /// Opens a transaction on `view`. It starts with the tags of `view`.
    pub fn start(view: &TagRegistry) -> (transaction: Self)
        ensures
            transaction@ == view@,
    {
        Transaction { staged: view.clone() }
    }

    /// The tags as they stand in this transaction.
    pub fn repo(&self) -> (staged: &TagRegistry)
        ensures
            staged@ == self@,
    {
        &self.staged
    }

    /// Stages that the tag `name` points to `target`; an absent target
    /// stages its removal.
    pub fn stage_set(&mut self, name: &str, target: RefTarget)
        requires
            name@.len() > 0,
        ensures
            final(self)@ == if target@ is Absent {
                old(self)@.remove(name@)
            } else {
                old(self)@.insert(name@, target@)
            },
    {
        self.staged.set(name, target);
    }

    /// Closes the transaction under `description`.
    pub fn finish(self, description: String) -> (pending: PendingCommit)
        ensures
            pending@ == (PendingView { tags: self@, description: description@ }),
    {
        PendingCommit { view: self.staged, description }
    }
}

/// What becomes of a pending commit whose tags are `tags`, given what the
/// store said: all of it is visible, or none of it.
pub open spec fn settled(
    tags: Map<Seq<char>, TargetView>,
    outcome: Result<(), CommitFailure>,
) -> Result<Map<Seq<char>, TargetView>, TagErrorView> {
    match outcome {
        Ok(_) => Ok(tags),
        Err(failure) => Err(TagErrorView::Commit(failure.message@)),
    }
}

impl PendingCommit {
    /// The view that becomes visible if the store accepts the commit.
    pub fn staged(&self) -> (view: &TagRegistry)
        ensures
            view@ == self@.tags,
    {
        &self.view
    }

    /// The description of the operation.
    pub fn description(&self) -> (description: &str)
        ensures
            description@ == self@.description,
    {
        self.description.as_str()
    }

    /// Ends the commit with what the store said. Where the store accepted
    /// it, the staged view is the new view; where it did not, the failure
    /// is handed on and no view comes of it.
    pub fn settle(self, outcome: Result<(), CommitFailure>) -> (r: Result<TagRegistry, TagError>)
        ensures
            match r {
                Ok(view) => settled(self@.tags, outcome) == Ok::<
                    Map<Seq<char>, TargetView>,
                    TagErrorView,
                >(view@),
                Err(error) => settled(self@.tags, outcome) == Err::<
                    Map<Seq<char>, TargetView>,
                    TagErrorView,
                >(error@),
            },
    {
        match outcome {
            Ok(_) => Ok(self.view),
            Err(failure) => Err(TagError::Commit(failure)),
        }
    }
}

} // verus!
