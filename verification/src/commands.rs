//! The tag commands: creating a tag at a resolved revision, and listing the
//! tags that a set of patterns selects. The commands decide; resolving a
//! revision, committing to the operation store and writing output are left
//! to the caller, who hands in what came of them.

use crate::commit_id::{hex_text, CommitId};
use crate::error::{CommitFailure, ResolutionError, TagError, TagErrorView};
use crate::name_order::strictly_sorted;
use crate::ref_target::{RefTarget, TargetView};
use crate::registry::{target_in, TagRegistry};
use crate::string_pattern::{
    parse_outcome, parse_string_pattern, pattern_views, selected_by, PatternView, StringPattern,
    SyntaxErrorView,
};
use crate::transaction::{settled, PendingCommit, PendingView, Transaction};
use vstd::prelude::*;
use vstd::string::StringExecFns;

verus! {

/// What `tag create` is called with: the revision to tag, if one was given,
/// and the name of the new tag.
#[derive(Debug, PartialEq, Eq)]
pub struct TagCreateArgs {
    revision: Option<String>,
    name: String,
}

/// What `tag list` is called with.
#[derive(Debug, PartialEq, Eq)]
pub struct TagListArgs {
    /// Show the tags whose name one of these patterns matches; all tags
    /// where there is none.
    pub names: Vec<StringPattern>,
}

/// A tag command with its arguments.
#[derive(Debug, PartialEq, Eq)]
pub enum TagCommand {
    Create(TagCreateArgs),
    List(TagListArgs),
}

/// What a tag command asks of its caller.
#[derive(Debug, PartialEq, Eq)]
pub enum TagStep {
    /// Resolve this revision to one commit and go on with
    /// [`cmd_tag_create`].
    Resolve(String),
    /// Write these names, one to a line.
    Emit(Vec<String>),
}

/// The mathematical value of a [`TagStep`].
pub enum TagStepView {
    Resolve(Seq<char>),
    Emit(Seq<Seq<char>>),
}

impl View for TagStep {
    type V = TagStepView;

    open spec fn view(&self) -> TagStepView {
        match self {
            TagStep::Resolve(revision) => TagStepView::Resolve(revision@),
            TagStep::Emit(names) => TagStepView::Emit(names.deep_view()),
        }
    }
}

/// The revision that is tagged where none is given: the working copy.
pub open spec fn default_revision() -> Seq<char> {
    "@"@
}

impl TagCreateArgs {
    /// Holds of every value: the name of the tag is not empty.
    #[verifier::type_invariant]
    pub closed spec fn well_formed(&self) -> bool {
        self.name@.len() > 0
    }

    /// The name of the tag to create.
    pub closed spec fn name_text(&self) -> Seq<char> {
        self.name@
    }

    /// The revision as it was given.
    pub closed spec fn given_revision(&self) -> Option<Seq<char>> {
        match self.revision {
            Some(revision) => Some(revision@),
            None => None,
        }
    }

    /// The revision to tag: the one given, else the working copy.
    pub open spec fn revision_text(&self) -> Seq<char> {
        match self.given_revision() {
            Some(revision) => revision,
            None => default_revision(),
        }
    }

    /// The arguments for creating the tag `name` at `revision`; none where
    /// `name` is empty.
    pub fn new(revision: Option<String>, name: String) -> (args: Option<Self>)
        ensures
            args is Some <==> name@.len() > 0,
            args matches Some(args) ==> args.name_text() == name@ && args.given_revision() == (
            match revision {
                Some(revision) => Some(revision@),
                None => None,
            }),
    {
        if name.as_str().is_empty() {
            None
        } else {
            Some(TagCreateArgs { revision, name })
        }
    }

    /// The name of the tag to create.
    pub fn name(&self) -> (name: &str)
        ensures
            name@ == self.name_text(),
            name@.len() > 0,
    {
        proof {
            use_type_invariant(self);
        }
        self.name.as_str()
    }

    /// The revision as it was given.
    pub fn revision(&self) -> (revision: Option<&str>)
        ensures
            match revision {
                Some(revision) => self.given_revision() == Some(revision@),
                None => self.given_revision() is None,
            },
    {
        match &self.revision {
            Some(revision) => Some(revision.as_str()),
            None => None,
        }
    }

    /// The revision to tag: the one given, else `@`.
    pub fn revision_or_default(&self) -> (revision: &str)
        ensures
            revision@ == self.revision_text(),
    {
        match &self.revision {
            Some(revision) => revision.as_str(),
            None => "@",
        }
    }
}

impl Clone for TagCreateArgs {
    fn clone(&self) -> (copy: Self)
        ensures
            copy.name_text() == self.name_text(),
            copy.given_revision() == self.given_revision(),
    {
        proof {
            use_type_invariant(self);
        }
        let revision = match &self.revision {
            Some(revision) => Some(revision.clone()),
            None => None,
        };
        TagCreateArgs { revision, name: self.name.clone() }
    }
}

/// `at` is the first of `raw` that is no pattern.
pub open spec fn first_malformed(raw: Seq<Seq<char>>, at: int) -> bool {
    &&& 0 <= at < raw.len()
    &&& parse_outcome(raw[at]) is Err
    &&& forall|j: int| 0 <= j < at ==> parse_outcome(#[trigger] raw[j]) is Ok
}

impl TagListArgs {
    /// Reads the pattern arguments in order. The first that is no pattern
    /// ends the reading with its error, so that a malformed argument is
    /// refused before any tag is looked at.
    pub fn parse(raw: &Vec<String>) -> (r: Result<Self, TagError>)
        ensures
            match r {
                Ok(args) => {
                    &&& args.names.len() == raw.len()
                    &&& forall|i: int|
                        0 <= i < raw.len() ==> parse_outcome(#[trigger] raw[i]@) == Ok::<
                            PatternView,
                            SyntaxErrorView,
                        >(args.names[i]@)
                },
                Err(error) => exists|at: int|
                    first_malformed(raw.deep_view(), at) && error@ == TagErrorView::PatternSyntax(
                        parse_outcome(#[trigger] raw[at]@)->Err_0,
                    ),
            },
    {
        let mut names: Vec<StringPattern> = Vec::new();
        let mut i: usize = 0;
        while i < raw.len()
            invariant
                i <= raw.len(),
                names.len() == i,
                forall|j: int|
                    0 <= j < i ==> parse_outcome(#[trigger] raw[j]@) == Ok::<
                        PatternView,
                        SyntaxErrorView,
                    >(names[j]@),
            decreases raw.len() - i,
        {
            match parse_string_pattern(raw[i].as_str()) {
                Ok(pattern) => {
                    names.push(pattern);
                },
                Err(error) => {
                    proof {
                        let texts = raw.deep_view();
                        assert forall|j: int| 0 <= j < i implies parse_outcome(
                            #[trigger] texts[j],
                        ) is Ok by {
                            assert(texts[j] == raw[j]@);
                        }
                        assert(texts[i as int] == raw[i as int]@);
                        assert(first_malformed(texts, i as int));
                    }
                    return Err(TagError::PatternSyntax(error));
                },
            }
            i += 1;
        }
        Ok(TagListArgs { names })
    }
}

impl Clone for TagListArgs {
    fn clone(&self) -> (copy: Self)
        ensures
            pattern_views(copy.names@) == pattern_views(self.names@),
    {
        let mut names: Vec<StringPattern> = Vec::new();
        let mut i: usize = 0;
        while i < self.names.len()
            invariant
                i <= self.names.len(),
                names.len() == i,
                forall|j: int| 0 <= j < i ==> names[j]@ == self.names[j]@,
            decreases self.names.len() - i,
        {
            names.push(self.names[i].clone());
            i += 1;
        }
        assert(pattern_views(names@) =~= pattern_views(self.names@));
        TagListArgs { names }
    }
}

impl Clone for TagCommand {
    fn clone(&self) -> (copy: Self)
        ensures
            match (*self, copy) {
                (TagCommand::Create(args), TagCommand::Create(copied)) => copied.name_text()
                    == args.name_text() && copied.given_revision() == args.given_revision(),
                (TagCommand::List(args), TagCommand::List(copied)) => pattern_views(copied.names@)
                    == pattern_views(args.names@),
                _ => false,
            },
    {
        match self {
            TagCommand::Create(args) => TagCommand::Create(args.clone()),
            TagCommand::List(args) => TagCommand::List(args.clone()),
        }
    }
}

/// The description under which the creation of `name` at the commit `id` is
/// recorded.
pub open spec fn create_description(name: Seq<char>, id: Seq<u8>) -> Seq<char> {
    "create "@ + name + " pointing to commit "@ + hex_text(id)
}

/// What creating the tag `name` comes to, given the tags that exist and what
/// resolving the revision gave. A revision that did not resolve ends it with
/// that error. A name that points to anything ends it with `AlreadyExists`.
/// Otherwise the new view has `name` point to the commit and every other tag
/// as before.
pub open spec fn create_outcome(
    tags: Map<Seq<char>, TargetView>,
    name: Seq<char>,
    resolution: Result<Seq<u8>, Seq<char>>,
) -> Result<PendingView, TagErrorView> {
    match resolution {
        Err(message) => Err(TagErrorView::Resolution(message)),
        Ok(id) => if target_in(tags, name) is Absent {
            Ok(
                PendingView {
                    tags: tags.insert(name, TargetView::Normal(id)),
                    description: create_description(name, id),
                },
            )
        } else {
            Err(TagErrorView::AlreadyExists(name))
        },
    }
}

/// What resolving a revision gave, as mathematical values.
pub open spec fn resolution_view(resolution: Result<CommitId, ResolutionError>) -> Result<
    Seq<u8>,
    Seq<char>,
> {
    match resolution {
        Ok(id) => Ok(id@),
        Err(error) => Err(error.message@),
    }
}

/// What a creation gave, as mathematical values.
pub open spec fn pending_view(r: Result<PendingCommit, TagError>) -> Result<
    PendingView,
    TagErrorView,
> {
    match r {
        Ok(pending) => Ok(pending@),
        Err(error) => Err(error@),
    }
}

/// Creates the tag that `args` names, on the tags of `view`, at the commit
/// that the revision of `args` resolved to. Nothing is staged unless the
/// revision resolved and the name is free; `view` itself is never changed.
/// The result is the commit to hand to the operation store.
pub fn cmd_tag_create(
    view: &TagRegistry,
    args: &TagCreateArgs,
    resolution: Result<CommitId, ResolutionError>,
) -> (r: Result<PendingCommit, TagError>)
    ensures
        pending_view(r) == create_outcome(view@, args.name_text(), resolution_view(resolution)),
{
    let target_commit = match resolution {
        Ok(id) => id,
        Err(error) => {
            return Err(TagError::Resolution(error));
        },
    };
    let name = args.name();
    if view.lookup(name).is_present() {
        return Err(TagError::AlreadyExists(String::from_str(name)));
    }
    let mut description = String::from_str("create ");
    description.append(name);
    description.append(" pointing to commit ");
    description.append(target_commit.hex().as_str());

    let mut tx = Transaction::start(view);
    tx.stage_set(name, RefTarget::normal(target_commit));
    Ok(tx.finish(description))
}

/// Lists the tags of `view` that the patterns of `args` select, in listing
/// order. That nothing is selected is no error: the list is then empty.
pub fn cmd_tag_list(view: &TagRegistry, args: &TagListArgs) -> (names: Vec<String>)
    ensures
        names.deep_view() == view.listing().filter(selected_by(pattern_views(args.names@))),
        strictly_sorted(names.deep_view()),
{
    view.list(&args.names)
}

/// What `subcommand` asks of the caller first, as mathematical values.
pub open spec fn first_step(view: TagRegistry, subcommand: TagCommand) -> TagStepView {
    match subcommand {
        TagCommand::Create(args) => TagStepView::Resolve(args.revision_text()),
        TagCommand::List(args) => TagStepView::Emit(
            view.listing().filter(selected_by(pattern_views(args.names@))),
        ),
    }
}

/// Runs `subcommand` on `view` as far as it goes without the caller: a
/// listing is complete, a creation waits for its revision to be resolved.
pub fn cmd_tag(view: &TagRegistry, subcommand: &TagCommand) -> (step: TagStep)
    ensures
        step@ == first_step(*view, *subcommand),
{
    match subcommand {
        TagCommand::Create(sub_args) => TagStep::Resolve(
            String::from_str(sub_args.revision_or_default()),
        ),
        TagCommand::List(sub_args) => TagStep::Emit(cmd_tag_list(view, sub_args)),
    }
}

/// What creating the tag `name` comes to in the end, given also what the
/// operation store said to the commit: the view that is visible afterwards,
/// or the error with which the creation ended.
pub open spec fn create_and_commit(
    tags: Map<Seq<char>, TargetView>,
    name: Seq<char>,
    resolution: Result<Seq<u8>, Seq<char>>,
    commit: Result<(), CommitFailure>,
) -> Result<Map<Seq<char>, TargetView>, TagErrorView> {
    match create_outcome(tags, name, resolution) {
        Ok(pending) => settled(pending.tags, commit),
        Err(error) => Err(error),
    }
}

/// A revision that does not resolve ends the creation with the error of the
/// resolver, whatever the tags, the name and the store: nothing is staged
/// and no view comes of it, so every name points to what it pointed to.
pub proof fn lemma_unresolved_creates_nothing(
    tags: Map<Seq<char>, TargetView>,
    name: Seq<char>,
    message: Seq<char>,
    commit: Result<(), CommitFailure>,
)
    ensures
        create_outcome(tags, name, Err(message)) == Err::<PendingView, TagErrorView>(
            TagErrorView::Resolution(message),
        ),
        create_and_commit(tags, name, Err(message), commit) == Err::<
            Map<Seq<char>, TargetView>,
            TagErrorView,
        >(TagErrorView::Resolution(message)),
{
}

/// A commit that the store refuses ends the creation with that failure, and
/// no view comes of it.
pub proof fn lemma_refused_commit_creates_nothing(
    tags: Map<Seq<char>, TargetView>,
    name: Seq<char>,
    id: Seq<u8>,
    failure: CommitFailure,
)
    requires
        target_in(tags, name) is Absent,
    ensures
        create_and_commit(tags, name, Ok(id), Err(failure)) == Err::<
            Map<Seq<char>, TargetView>,
            TagErrorView,
        >(TagErrorView::Commit(failure.message@)),
{
}

/// After a creation that was committed, the tag points to the commit that
/// its revision resolved to, and every other name points to what it pointed
/// to before.
pub proof fn lemma_created_tag_is_found(
    tags: Map<Seq<char>, TargetView>,
    name: Seq<char>,
    id: Seq<u8>,
)
    requires
        create_and_commit(tags, name, Ok(id), Ok(())) is Ok,
    ensures
        ({
            let created = create_and_commit(tags, name, Ok(id), Ok(()))->Ok_0;
            &&& target_in(created, name) == TargetView::Normal(id)
            &&& forall|other: Seq<char>|
                other != name ==> target_in(created, other) == target_in(tags, other)
        }),
{
}

/// After a creation that was committed, creating the same tag again is
/// refused with `AlreadyExists`, whatever commit the second revision
/// resolves to and whatever the store would say, and the tag still points to
/// where the first creation put it.
pub proof fn lemma_second_create_is_refused(
    tags: Map<Seq<char>, TargetView>,
    name: Seq<char>,
    first: Seq<u8>,
    second: Seq<u8>,
    commit: Result<(), CommitFailure>,
)
    requires
        create_and_commit(tags, name, Ok(first), Ok(())) is Ok,
    ensures
        ({
            let created = create_and_commit(tags, name, Ok(first), Ok(()))->Ok_0;
            &&& create_and_commit(created, name, Ok(second), commit) == Err::<
                Map<Seq<char>, TargetView>,
                TagErrorView,
            >(TagErrorView::AlreadyExists(name))
            &&& target_in(created, name) == TargetView::Normal(first)
        }),
{
}

} // verus!
