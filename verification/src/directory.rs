//! Making sure of the state directory: it is created where it is missing, and refused where it
//! is not a real directory that is private to the user.

use vstd::prelude::*;

use crate::checks;
use crate::protocol::{Action, Place, RegistryError, Reply, Verdict, DIRECTORY_MODE};

verus! {

/// The inspection that decides, with its reply at index `at`.
pub open spec fn directory_inspected(replies: Seq<Reply>, at: int) -> Verdict<(), RegistryError> {
    if replies.len() <= at {
        Verdict::Asks(Action::Inspect(Place::Directory))
    } else {
        match checks::private_directory_facts(replies[at].inspection()) {
            Ok(_) => Verdict::Passes((), at + 1),
            Err(error) => Verdict::Fails(error, at + 1),
        }
    }
}

/// What the replies from index `at` on say of the state directory. A link is refused; a missing
/// directory is created and given its mode; then the directory is inspected.
pub open spec fn private_directory(replies: Seq<Reply>, at: int) -> Verdict<(), RegistryError> {
    if replies.len() <= at {
        Verdict::Asks(Action::Inspect(Place::Directory))
    } else if let Err(error) = checks::unless_symlinked(
        Place::Directory,
        replies[at].inspection(),
    ) {
        Verdict::Fails(error, at + 1)
    } else if replies.len() == at + 1 {
        Verdict::Asks(Action::TestDirectory)
    } else if replies[at + 1] == Reply::Existence(true) {
        directory_inspected(replies, at + 2)
    } else if replies.len() == at + 2 {
        Verdict::Asks(Action::CreateDirectory)
    } else if let Reply::Failed(failure) = replies[at + 2] {
        Verdict::Fails(RegistryError::CannotCreateDirectory(failure), at + 3)
    } else if replies.len() == at + 3 {
        Verdict::Asks(Action::SetDirectoryMode(DIRECTORY_MODE))
    } else if let Reply::Failed(failure) = replies[at + 3] {
        Verdict::Fails(RegistryError::Io(failure), at + 4)
    } else {
        directory_inspected(replies, at + 4)
    }
}

/// A verdict that has been reached stands, whatever is replied later.
pub proof fn directory_verdict_stands(replies: Seq<Reply>, reply: Reply, at: int)
    requires
        0 <= at,
        !(private_directory(replies, at) is Asks),
    ensures
        private_directory(replies.push(reply), at) == private_directory(replies, at),
        match private_directory(replies, at) {
            Verdict::Asks(_) => true,
            Verdict::Passes(_, used) => at < used <= replies.len(),
            Verdict::Fails(_, used) => at < used <= replies.len(),
        },
{
}

/// Where the check of the state directory stands.
#[derive(Clone, Copy, Debug, PartialEq, Eq, Structural)]
pub enum DirectoryStage {
    Look,
    Test,
    Create,
    SetMode,
    Inspect,
}

/// What a reply leads to.
pub enum DirectoryStep {
    Asks(DirectoryStage),
    Passes,
    Fails(RegistryError),
}

impl DirectoryStage {
    pub open spec fn action(self) -> Action {
        match self {
            DirectoryStage::Look => Action::Inspect(Place::Directory),
            DirectoryStage::Test => Action::TestDirectory,
            DirectoryStage::Create => Action::CreateDirectory,
            DirectoryStage::SetMode => Action::SetDirectoryMode(DIRECTORY_MODE),
            DirectoryStage::Inspect => Action::Inspect(Place::Directory),
        }
    }

    /// The action that is waited for.
    pub fn pending(&self) -> (action: Action)
        ensures
            action == self.action(),
    {
        match self {
            DirectoryStage::Look => Action::Inspect(Place::Directory),
            DirectoryStage::Test => Action::TestDirectory,
            DirectoryStage::Create => Action::CreateDirectory,
            DirectoryStage::SetMode => Action::SetDirectoryMode(DIRECTORY_MODE),
            DirectoryStage::Inspect => Action::Inspect(Place::Directory),
        }
    }

    /// The replies from `at` on lead to this stage.
    pub open spec fn reached(self, replies: Seq<Reply>, at: int) -> bool {
        &&& 0 <= at <= replies.len()
        &&& private_directory(replies, at) == Verdict::<(), RegistryError>::Asks(self.action())
        &&& match self {
            DirectoryStage::Look => replies.len() == at,
            DirectoryStage::Test => replies.len() == at + 1,
            DirectoryStage::Create => replies.len() == at + 2,
            DirectoryStage::SetMode => replies.len() == at + 3,
            DirectoryStage::Inspect => {
                ||| replies.len() == at + 2 && replies[at + 1] == Reply::Existence(true)
                ||| replies.len() == at + 4 && replies[at + 1] != Reply::Existence(true)
            },
        }
    }

    /// Takes the reply to the pending action.
    pub(crate) fn resume(
        self,
        reply: Reply,
        Ghost(replies): Ghost<Seq<Reply>>,
        Ghost(at): Ghost<int>,
    ) -> (step: DirectoryStep)
        requires
            self.reached(replies, at),
            self.action().answered_by(reply),
        ensures
            match step {
                DirectoryStep::Asks(stage) => stage.reached(replies.push(reply), at),
                DirectoryStep::Passes => private_directory(replies.push(reply), at)
                    == Verdict::<(), RegistryError>::Passes((), 1 + replies.len() as int),
                DirectoryStep::Fails(error) => private_directory(replies.push(reply), at)
                    == Verdict::<(), RegistryError>::Fails(error, 1 + replies.len() as int),
            },
    {
        match self {
            DirectoryStage::Look => match checks::reject_symlink(
                Place::Directory,
                reply.into_inspection(),
            ) {
                Ok(_) => DirectoryStep::Asks(DirectoryStage::Test),
                Err(error) => DirectoryStep::Fails(error),
            },
            DirectoryStage::Test => match reply {
                Reply::Existence(true) => DirectoryStep::Asks(DirectoryStage::Inspect),
                _ => DirectoryStep::Asks(DirectoryStage::Create),
            },
            DirectoryStage::Create => match reply {
                Reply::Failed(failure) => DirectoryStep::Fails(
                    RegistryError::CannotCreateDirectory(failure),
                ),
                _ => DirectoryStep::Asks(DirectoryStage::SetMode),
            },
            DirectoryStage::SetMode => match reply {
                Reply::Failed(failure) => DirectoryStep::Fails(RegistryError::Io(failure)),
                _ => DirectoryStep::Asks(DirectoryStage::Inspect),
            },
            DirectoryStage::Inspect => match checks::ensure_private_directory_facts(
                reply.into_inspection(),
            ) {
                Ok(_) => DirectoryStep::Passes,
                Err(error) => DirectoryStep::Fails(error),
            },
        }
    }
}

/// How the state directory fares, by the first look at it and by whether it is there. A link and a
/// failure to look are refused; where nothing is there, the directory is created and given the mode
/// 0700; then its facts decide.
pub proof fn directory_is_decided(replies: Seq<Reply>, at: int)
    requires
        0 <= at,
    ensures
        ({
            let verdict = private_directory(replies, at);
            let n = replies.len();
            let clear = n > at && (replies[at] is Facts && !replies[at]->Facts_0.symlink
                || replies[at] is Failed && replies[at]->Failed_0.not_found);
            let there = clear && n > at + 1 && replies[at + 1] == Reply::Existence(true);
            let absent = clear && n > at + 1 && replies[at + 1] == Reply::Existence(false);
            let made = absent && n > at + 3 && replies[at + 2] is Done && replies[at + 3] is Done;
            &&& n <= at ==> verdict == Verdict::<(), RegistryError>::Asks(
                Action::Inspect(Place::Directory),
            )
            &&& n > at && replies[at] is Facts && replies[at]->Facts_0.symlink ==> verdict
                == Verdict::<(), RegistryError>::Fails(
                RegistryError::Symlinked(Place::Directory),
                at + 1,
            )
            &&& n > at && replies[at] is Failed && !replies[at]->Failed_0.not_found ==> verdict
                == Verdict::<(), RegistryError>::Fails(
                RegistryError::Io(replies[at]->Failed_0),
                at + 1,
            )
            &&& clear && n == at + 1 ==> verdict == Verdict::<(), RegistryError>::Asks(
                Action::TestDirectory,
            )
            &&& there ==> verdict == directory_inspected(replies, at + 2)
            &&& absent && n == at + 2 ==> verdict == Verdict::<(), RegistryError>::Asks(
                Action::CreateDirectory,
            )
            &&& absent && n > at + 2 && replies[at + 2] is Failed ==> verdict == Verdict::<
                (),
                RegistryError,
            >::Fails(RegistryError::CannotCreateDirectory(replies[at + 2]->Failed_0), at + 3)
            &&& absent && n == at + 3 && replies[at + 2] is Done ==> verdict == Verdict::<
                (),
                RegistryError,
            >::Asks(Action::SetDirectoryMode(0o700))
            &&& absent && n > at + 3 && replies[at + 2] is Done && replies[at + 3] is Failed
                ==> verdict == Verdict::<(), RegistryError>::Fails(
                RegistryError::Io(replies[at + 3]->Failed_0),
                at + 4,
            )
            &&& made ==> verdict == directory_inspected(replies, at + 4)
        }),
{
}

/// The last look at the state directory: it passes if and only if it is a real directory of the
/// user with mode 0700.
pub proof fn inspected_directory_is_decided(replies: Seq<Reply>, at: int)
    requires
        0 <= at,
    ensures
        ({
            let verdict = directory_inspected(replies, at);
            let facts = replies[at]->Facts_0;
            let genuine = replies.len() > at && replies[at] is Facts && facts.directory
                && !facts.symlink;
            &&& replies.len() <= at ==> verdict == Verdict::<(), RegistryError>::Asks(
                Action::Inspect(Place::Directory),
            )
            &&& replies.len() > at && replies[at] is Failed ==> verdict == Verdict::<
                (),
                RegistryError,
            >::Fails(RegistryError::Io(replies[at]->Failed_0), at + 1)
            &&& replies.len() > at && replies[at] is Facts && !genuine ==> verdict == Verdict::<
                (),
                RegistryError,
            >::Fails(RegistryError::NotADirectory(Place::Directory), at + 1)
            &&& genuine && facts.access is None ==> verdict == Verdict::<(), RegistryError>::Passes(
                (),
                at + 1,
            )
            &&& genuine && facts.access is Some && facts.access->0.owner != facts.access->0.user
                ==> verdict == Verdict::<(), RegistryError>::Fails(
                RegistryError::NotOwned(Place::Directory),
                at + 1,
            )
            &&& genuine && facts.access is Some && facts.access->0.owner == facts.access->0.user
                && facts.access->0.mode & 0o777 != 0o700 ==> verdict == Verdict::<
                (),
                RegistryError,
            >::Fails(RegistryError::WrongMode(Place::Directory, 0o700), at + 1)
            &&& genuine && facts.access is Some && facts.access->0.owner == facts.access->0.user
                && facts.access->0.mode & 0o777 == 0o700 ==> verdict == Verdict::<
                (),
                RegistryError,
            >::Passes((), at + 1)
        }),
{
}

/// A real directory of the user with mode 0700 passes, whatever else its facts say.
pub proof fn private_directory_passes(replies: Seq<Reply>, at: int)
    requires
        0 <= at,
        replies.len() >= at + 3,
        replies[at] is Facts,
        !replies[at]->Facts_0.symlink,
        replies[at + 1] == Reply::Existence(true),
        replies[at + 2] is Facts,
        replies[at + 2]->Facts_0.directory,
        !replies[at + 2]->Facts_0.symlink,
        replies[at + 2]->Facts_0.access is Some ==> {
            let access = replies[at + 2]->Facts_0.access->0;
            access.owner == access.user && access.mode & 0o777 == 0o700
        },
    ensures
        private_directory(replies, at) == Verdict::<(), RegistryError>::Passes((), at + 3),
{
}

} // verus!
