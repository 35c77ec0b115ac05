//! Which paths can be used as workspaces: absolute ones that lead to an existing directory.

use vstd::pervasive::unreached;
use vstd::prelude::*;

use crate::paths;
use crate::protocol::{
    Action, FileFacts, IoFailure, Place, RegistryError, Reply, SelectionError, Status, Verdict,
};

verus! {

/// What the inspection of a canonical path says of it as a workspace.
pub open spec fn examination(inspection: Result<FileFacts, IoFailure>) -> Result<
    (),
    SelectionError,
> {
    match inspection {
        Ok(facts) => if facts.directory && !facts.symlink {
            Ok(())
        } else {
            Err(SelectionError::NotADirectory)
        },
        Err(failure) => Err(SelectionError::Uninspectable(failure)),
    }
}

/// What the replies from index `at` on say of `path`, which stands at `place`. It passes with its
/// canonical path where it is absolute, can be resolved, and leads to a real directory.
pub open spec fn selection(
    path: Seq<u8>,
    place: Place,
    replies: Seq<Reply>,
    at: int,
) -> Verdict<Seq<u8>, SelectionError> {
    if !paths::absolute(path) {
        Verdict::Fails(SelectionError::NotAbsolute, at)
    } else if replies.len() <= at {
        Verdict::Asks(Action::Resolve(place))
    } else {
        match replies[at].resolution() {
            Err(failure) => Verdict::Fails(SelectionError::Missing(failure), at + 1),
            Ok(resolved) => if replies.len() == at + 1 {
                Verdict::Asks(Action::Inspect(Place::Resolved))
            } else {
                match examination(replies[at + 1].inspection()) {
                    Err(error) => Verdict::Fails(error, at + 2),
                    Ok(_) => Verdict::Passes(resolved@, at + 2),
                }
            },
        }
    }
}

/// Refuses a canonical path that does not lead to a real directory.
pub fn examine(inspection: Result<FileFacts, IoFailure>) -> (result: Result<(), SelectionError>)
    ensures
        result == examination(inspection),
        result is Ok <==> inspection is Ok && inspection->Ok_0.directory
            && !inspection->Ok_0.symlink,
{
    match inspection {
        Ok(facts) => {
            if facts.symlink || !facts.directory {
                return Err(SelectionError::NotADirectory);
            }
            Ok(())
        },
        Err(failure) => Err(SelectionError::Uninspectable(failure)),
    }
}

/// Where the validation of a selected path stands after `replies`.
pub open spec fn selection_status(path: Seq<u8>, replies: Seq<Reply>) -> Status<Seq<u8>> {
    match selection(path, Place::Selection, replies, 0) {
        Verdict::Asks(action) => Status::Asks(action),
        Verdict::Passes(canonical, _) => Status::Succeeds(canonical),
        Verdict::Fails(error, _) => Status::Fails(RegistryError::InvalidSelection(error)),
    }
}

/// Every reply answers what the validation asked.
pub open spec fn selection_run(path: Seq<u8>, replies: Seq<Reply>) -> bool {
    forall|k: int|
        0 <= k < replies.len() ==> {
            let earlier = selection_status(path, #[trigger] replies.take(k));
            earlier is Asks && earlier->Asks_0.answered_by(replies[k])
        }
}

/// One more answer continues a run.
proof fn run_continues(path: Seq<u8>, replies: Seq<Reply>, reply: Reply)
    requires
        selection_run(path, replies),
        selection_status(path, replies) is Asks,
        selection_status(path, replies)->Asks_0.answered_by(reply),
    ensures
        selection_run(path, replies.push(reply)),
{
    let now = replies.push(reply);
    assert(now.take(replies.len() as int) =~= replies);
    assert forall|k: int| 0 <= k < now.len() implies {
        let earlier = selection_status(path, #[trigger] now.take(k));
        earlier is Asks && earlier->Asks_0.answered_by(now[k])
    } by {
        if k < replies.len() {
            assert(now.take(k) =~= replies.take(k));
        }
    }
}

/// A path that is accepted is absolute.
pub proof fn accepted_path_is_absolute(path: Seq<u8>, replies: Seq<Reply>)
    requires
        selection_run(path, replies),
        selection_status(path, replies) is Succeeds,
    ensures
        paths::absolute(selection_status(path, replies)->Succeeds_0),
{
    assert(selection_status(path, replies.take(0)) == Status::<Seq<u8>>::Asks(
        Action::Resolve(Place::Selection),
    ));
}

/// A path that is accepted is accepted again, unchanged, as long as it resolves to itself and
/// the inspection finds what it found.
pub proof fn accepted_path_is_accepted_again(path: Seq<u8>, replies: Seq<Reply>, again: Seq<Reply>)
    requires
        selection_run(path, replies),
        selection_status(path, replies) is Succeeds,
        again.len() >= 2,
        again[0] is Resolved,
        again[0]->Resolved_0@ == selection_status(path, replies)->Succeeds_0,
        again[1] == replies[1],
    ensures
        selection_status(selection_status(path, replies)->Succeeds_0, again) == selection_status(
            path,
            replies,
        ),
{
    accepted_path_is_absolute(path, replies);
}

enum SelectingStage {
    Resolve,
    Examine(Vec<u8>),
    Ended(Result<Vec<u8>, SelectionError>),
}

/// The validation of a selected path.
pub struct Selecting {
    path: Vec<u8>,
    stage: SelectingStage,
    replies: Ghost<Seq<Reply>>,
}

impl Selecting {
    /// The path that was selected.
    pub closed spec fn selected(&self) -> Seq<u8> {
        self.path@
    }

    /// The replies so far.
    pub closed spec fn replies(&self) -> Seq<Reply> {
        self.replies@
    }

    /// Where the validation stands.
    pub open spec fn status(&self) -> Status<Seq<u8>> {
        selection_status(self.selected(), self.replies())
    }

    #[verifier::type_invariant]
    spec fn consistent(self) -> bool {
        &&& selection_run(self.path@, self.replies@)
        &&& match self.stage {
            SelectingStage::Resolve => {
                &&& self.replies@.len() == 0
                &&& paths::absolute(self.path@)
            },
            SelectingStage::Examine(resolved) => {
                &&& self.replies@.len() == 1
                &&& paths::absolute(self.path@)
                &&& self.replies@.last() == Reply::Resolved(resolved)
            },
            SelectingStage::Ended(Ok(canonical)) => self.status() == Status::Succeeds(canonical@),
            SelectingStage::Ended(Err(error)) => self.status() == Status::<Seq<u8>>::Fails(
                RegistryError::InvalidSelection(error),
            ),
        }
    }

    /// The action that the validation waits for, until it has ended.
    pub fn next(&self) -> (action: Option<Action>)
        ensures
            match self.status() {
                Status::Asks(asked) => action == Some(asked),
                _ => action is None,
            },
    {
        proof {
            use_type_invariant(self);
        }
        match &self.stage {
            SelectingStage::Resolve => Some(Action::Resolve(Place::Selection)),
            SelectingStage::Examine(_) => Some(Action::Inspect(Place::Resolved)),
            SelectingStage::Ended(_) => None,
        }
    }

    /// The path at a place that the validation deals with. The canonical path is there while it
    /// is to be inspected.
    pub fn path_of(&self, place: Place) -> (path: Option<&Vec<u8>>)
        ensures
            match place {
                Place::Selection => path is Some && path->0@ == self.selected(),
                Place::Resolved => if self.status() == Status::<Seq<u8>>::Asks(
                    Action::Inspect(place),
                ) {
                    path is Some && self.replies().last() == Reply::Resolved(*path->0)
                } else {
                    path is None
                },
                _ => path is None,
            },
    {
        proof {
            use_type_invariant(self);
        }
        match (place, &self.stage) {
            (Place::Selection, _) => Some(&self.path),
            (Place::Resolved, SelectingStage::Examine(resolved)) => Some(resolved),
            _ => None,
        }
    }

    /// Takes the reply to the pending action.
    pub fn resume(self, reply: Reply) -> (next: Self)
        requires
            self.status() is Asks,
            self.status()->Asks_0.answered_by(reply),
        ensures
            next.selected() == self.selected(),
            next.replies() == self.replies().push(reply),
    {
        proof {
            use_type_invariant(&self);
        }
        let ghost replies = self.replies@.push(reply);
        proof {
            run_continues(self.path@, self.replies@, reply);
        }
        let Selecting { path, stage, replies: _ } = self;
        let stage = match stage {
            SelectingStage::Resolve => match reply.into_resolution() {
                Ok(resolved) => SelectingStage::Examine(resolved),
                Err(failure) => SelectingStage::Ended(Err(SelectionError::Missing(failure))),
            },
            SelectingStage::Examine(resolved) => match examine(reply.into_inspection()) {
                Ok(_) => SelectingStage::Ended(Ok(resolved)),
                Err(error) => SelectingStage::Ended(Err(error)),
            },
            SelectingStage::Ended(_) => unreached(),
        };
        Selecting { path, stage, replies: Ghost(replies) }
    }

    /// The canonical path of the selection, which is absolute, or why it cannot be used.
    pub fn finish(self) -> (result: Result<Vec<u8>, RegistryError>)
        requires
            !(self.status() is Asks),
        ensures
            selection_run(self.selected(), self.replies()),
            result is Ok ==> paths::absolute(result->Ok_0@),
            result is Ok ==> {
                &&& self.replies()[0] is Resolved
                &&& result->Ok_0@ == self.replies()[0]->Resolved_0@
            },
            result is Ok <==> {
                &&& self.selected().len() > 0
                &&& self.selected()[0] == 47
                &&& self.replies().len() >= 2
                &&& self.replies()[0] is Resolved
                &&& finds_directory(self.replies()[1])
            },
            match self.status() {
                Status::Asks(_) => false,
                Status::Succeeds(canonical) => result is Ok && result->Ok_0@ == canonical,
                Status::Fails(error) => result == Err::<Vec<u8>, RegistryError>(error),
            },
    {
        proof {
            use_type_invariant(&self);
            if self.status() is Succeeds {
                accepted_path_is_absolute(self.path@, self.replies@);
            }
            selection_is_decided(self.path@, Place::Selection, self.replies@, 0);
        }
        match self.stage {
            SelectingStage::Ended(Ok(canonical)) => Ok(canonical),
            SelectingStage::Ended(Err(error)) => Err(RegistryError::InvalidSelection(error)),
            _ => unreached(),
        }
    }
}

/// Starts the validation of a path that is to be used as a workspace.
pub fn validate_workspace_selection(path: Vec<u8>) -> (selecting: Selecting)
    ensures
        selecting.selected() == path@,
        selecting.replies() == Seq::<Reply>::empty(),
{
    let stage = if paths::is_absolute(path.as_slice()) {
        SelectingStage::Resolve
    } else {
        SelectingStage::Ended(Err(SelectionError::NotAbsolute))
    };
    Selecting { path, stage, replies: Ghost(Seq::empty()) }
}

/// The reply is that of an inspection which found a directory and no link, whoever owns it and
/// whatever its mode.
pub open spec fn finds_directory(reply: Reply) -> bool {
    reply is Facts && reply->Facts_0.directory && !reply->Facts_0.symlink
}

/// To find a directory is to find one that is no link, with any access.
pub proof fn finding_a_directory_is_of_its_kind(facts: FileFacts)
    ensures
        finds_directory(Reply::Facts(facts)) <==> facts.directory && !facts.symlink,
{
}

/// A canonical path is accepted if and only if it was found to be a directory and no link. Owner
/// and mode make no difference.
pub proof fn directories_are_accepted(facts: FileFacts, other: FileFacts, failure: IoFailure)
    ensures
        examination(Ok(facts)) is Ok <==> facts.directory && !facts.symlink,
        !(facts.directory && !facts.symlink) ==> examination(Ok(facts)) == Err::<
            (),
            SelectionError,
        >(SelectionError::NotADirectory),
        examination(Err(failure)) == Err::<(), SelectionError>(
            SelectionError::Uninspectable(failure),
        ),
        facts.directory == other.directory && facts.symlink == other.symlink ==> examination(
            Ok(facts),
        ) == examination(Ok(other)),
{
}

/// What a path is worth, by the path's first byte and the two replies on it. A path that passes
/// does so with exactly the path that it was resolved to.
pub proof fn selection_is_decided(path: Seq<u8>, place: Place, replies: Seq<Reply>, at: int)
    requires
        0 <= at,
    ensures
        ({
            let verdict = selection(path, place, replies, at);
            let rooted = path.len() > 0 && path[0] == 47;
            let resolved = rooted && replies.len() > at && replies[at] is Resolved;
            &&& verdict is Passes <==> {
                &&& resolved
                &&& replies.len() > at + 1
                &&& finds_directory(replies[at + 1])
            }
            &&& verdict is Passes ==> verdict->Passes_0 == replies[at]->Resolved_0@
                && verdict->Passes_1 == at + 2
            &&& !rooted ==> verdict == Verdict::<Seq<u8>, SelectionError>::Fails(
                SelectionError::NotAbsolute,
                at,
            )
            &&& rooted && replies.len() <= at ==> verdict == Verdict::<
                Seq<u8>,
                SelectionError,
            >::Asks(Action::Resolve(place))
            &&& rooted && replies.len() > at && replies[at] is Failed ==> verdict == Verdict::<
                Seq<u8>,
                SelectionError,
            >::Fails(SelectionError::Missing(replies[at]->Failed_0), at + 1)
            &&& resolved && replies.len() == at + 1 ==> verdict == Verdict::<
                Seq<u8>,
                SelectionError,
            >::Asks(Action::Inspect(Place::Resolved))
            &&& resolved && replies.len() > at + 1 && replies[at + 1] is Failed ==> verdict
                == Verdict::<Seq<u8>, SelectionError>::Fails(
                SelectionError::Uninspectable(replies[at + 1]->Failed_0),
                at + 2,
            )
            &&& resolved && replies.len() > at + 1 && replies[at + 1] is Facts && !finds_directory(
                replies[at + 1],
            ) ==> verdict == Verdict::<Seq<u8>, SelectionError>::Fails(
                SelectionError::NotADirectory,
                at + 2,
            )
        }),
{
}

/// Two absolute paths fare alike where they get the same replies; their spelling plays no part.
pub proof fn absolute_paths_fare_alike(
    path: Seq<u8>,
    other: Seq<u8>,
    place: Place,
    replies: Seq<Reply>,
    at: int,
)
    requires
        path.len() > 0 && path[0] == 47,
        other.len() > 0 && other[0] == 47,
    ensures
        selection(path, place, replies, at) == selection(other, place, replies, at),
        selection_status(path, replies) == selection_status(other, replies),
{
}

/// A validation ends as the two replies on the selection decide.
pub proof fn validation_is_decided(path: Seq<u8>, replies: Seq<Reply>)
    ensures
        match selection(path, Place::Selection, replies, 0) {
            Verdict::Asks(action) => selection_status(path, replies) == Status::<Seq<u8>>::Asks(
                action,
            ),
            Verdict::Passes(canonical, _) => selection_status(path, replies) == Status::Succeeds(
                canonical,
            ),
            Verdict::Fails(error, _) => selection_status(path, replies) == Status::<Seq<u8>>::Fails(
                RegistryError::InvalidSelection(error),
            ),
        },
{
}

/// An accepted selection is exactly the path that it was resolved to, and was found to be a
/// directory; and every absolute selection for which that holds is accepted.
pub proof fn accepted_path_is_the_resolution(path: Seq<u8>, replies: Seq<Reply>)
    requires
        selection_run(path, replies),
    ensures
        selection_status(path, replies) is Succeeds <==> {
            &&& path.len() > 0
            &&& path[0] == 47
            &&& replies.len() >= 2
            &&& replies[0] is Resolved
            &&& finds_directory(replies[1])
        },
        selection_status(path, replies) is Succeeds ==> selection_status(path, replies)->Succeeds_0
            == replies[0]->Resolved_0@,
{
}

/// The status of a validation is that of its selection and its replies.
pub proof fn validation_status_is_of_its_replies(selecting: Selecting)
    ensures
        selecting.status() == selection_status(selecting.selected(), selecting.replies()),
{
}

} // verus!
