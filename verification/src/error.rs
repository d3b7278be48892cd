//! The ways in which a tag command fails.

use crate::string_pattern::{PatternSyntaxError, SyntaxErrorView};
use vstd::prelude::*;
use vstd::string::StringExecFns;

verus! {

/// A revision that did not resolve to exactly one commit, in the words of
/// whoever tried to resolve it.
#[derive(Clone, Debug, PartialEq, Eq)]
pub struct ResolutionError {
    pub message: String,
}

/// A commit that the operation store refused, in the words of the store.
#[derive(Clone, Debug, PartialEq, Eq)]
pub struct CommitFailure {
    pub message: String,
}

/// Why a tag command did nothing.
#[derive(Clone, Debug, PartialEq, Eq)]
pub enum TagError {
    /// A tag of this name exists already.
    AlreadyExists(String),
    /// The revision did not resolve to exactly one commit.
    Resolution(ResolutionError),
    /// An argument is no pattern.
    PatternSyntax(PatternSyntaxError),
    /// The transaction was not committed.
    Commit(CommitFailure),
}

/// The mathematical value of a [`TagError`].
pub enum TagErrorView {
    AlreadyExists(Seq<char>),
    Resolution(Seq<char>),
    PatternSyntax(SyntaxErrorView),
    Commit(Seq<char>),
}

impl View for TagError {
    type V = TagErrorView;

    open spec fn view(&self) -> TagErrorView {
        match self {
            TagError::AlreadyExists(name) => TagErrorView::AlreadyExists(name@),
            TagError::Resolution(error) => TagErrorView::Resolution(error.message@),
            TagError::PatternSyntax(error) => TagErrorView::PatternSyntax(error@),
            TagError::Commit(failure) => TagErrorView::Commit(failure.message@),
        }
    }
}

impl TagErrorView {
    /// The one message shown for this error. It names the tag, the pattern
    /// or the revision at fault.
    pub open spec fn message(self) -> Seq<char> {
        match self {
            TagErrorView::AlreadyExists(name) => "Tag already exists: "@ + name,
            TagErrorView::Resolution(message) => message,
            TagErrorView::PatternSyntax(error) => error.message(),
            TagErrorView::Commit(message) => message,
        }
    }
}

impl TagError {
    /// The one message shown for this error.
    pub fn message(&self) -> (text: String)
        ensures
            text@ == self@.message(),
    {
        match self {
            TagError::AlreadyExists(name) => {
                let mut text = String::from_str("Tag already exists: ");
                text.append(name.as_str());
                text
            },
            TagError::Resolution(error) => error.message.clone(),
            TagError::PatternSyntax(error) => error.message(),
            TagError::Commit(failure) => failure.message.clone(),
        }
    }
}

/// The status with which a command that ended in `outcome` exits: zero for
/// success, one for every failure.
pub fn exit_status<T>(outcome: &Result<T, TagError>) -> (status: u8)
    ensures
        status == (if outcome is Ok {
            0u8
        } else {
            1u8
        }),
{
    match outcome {
        Ok(_) => 0,
        Err(_) => 1,
    }
}

} // verus!
