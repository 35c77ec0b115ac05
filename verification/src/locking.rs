//! Taking the lock under which the registry changes.

use vstd::prelude::*;

use crate::checks;
use crate::protocol::{Action, Place, RegistryError, Reply, Verdict, FILE_MODE};

verus! {

/// Opening the lock file and taking the lock, with the first reply at index `at`.
pub open spec fn lock_taken(replies: Seq<Reply>, at: int) -> Verdict<(), RegistryError> {
    if replies.len() <= at {
        Verdict::Asks(Action::OpenLock(FILE_MODE))
    } else if let Reply::Failed(failure) = replies[at] {
        Verdict::Fails(RegistryError::Io(failure), at + 1)
    } else if replies.len() == at + 1 {
        Verdict::Asks(Action::TakeLock)
    } else if let Reply::Failed(failure) = replies[at + 1] {
        Verdict::Fails(RegistryError::CannotLock(failure), at + 2)
    } else {
        Verdict::Passes((), at + 2)
    }
}

/// What the replies from index `at` on say of the lock. A lock file that is there has to be
/// private; a missing one is created when it is opened.
pub open spec fn registry_locked(replies: Seq<Reply>, at: int) -> Verdict<(), RegistryError> {
    if replies.len() <= at {
        Verdict::Asks(Action::Inspect(Place::Lock))
    } else if let Reply::Failed(failure) = replies[at] {
        if failure.not_found {
            lock_taken(replies, at + 1)
        } else {
            Verdict::Fails(RegistryError::Io(failure), at + 1)
        }
    } else if replies.len() == at + 1 {
        Verdict::Asks(Action::Inspect(Place::Lock))
    } else if let Err(error) = checks::private_file_facts(
        Place::Lock,
        replies[at + 1].inspection(),
    ) {
        Verdict::Fails(error, at + 2)
    } else {
        lock_taken(replies, at + 2)
    }
}

/// A verdict that has been reached stands, whatever is replied later.
pub proof fn lock_verdict_stands(replies: Seq<Reply>, reply: Reply, at: int)
    requires
        0 <= at,
        !(registry_locked(replies, at) is Asks),
    ensures
        registry_locked(replies.push(reply), at) == registry_locked(replies, at),
        match registry_locked(replies, at) {
            Verdict::Asks(_) => true,
            Verdict::Passes(_, used) => at < used <= replies.len(),
            Verdict::Fails(_, used) => at < used <= replies.len(),
        },
{
}

/// Where the taking of the lock stands.
#[derive(Clone, Copy, Debug, PartialEq, Eq, Structural)]
pub enum LockingStage {
    Look,
    Check,
    Open,
    Take,
}

/// What a reply leads to.
pub enum LockingStep {
    Asks(LockingStage),
    Passes,
    Fails(RegistryError),
}

impl LockingStage {
    pub open spec fn action(self) -> Action {
        match self {
            LockingStage::Look => Action::Inspect(Place::Lock),
            LockingStage::Check => Action::Inspect(Place::Lock),
            LockingStage::Open => Action::OpenLock(FILE_MODE),
            LockingStage::Take => Action::TakeLock,
        }
    }

    /// The action that is waited for.
    pub fn pending(&self) -> (action: Action)
        ensures
            action == self.action(),
    {
        match self {
            LockingStage::Look => Action::Inspect(Place::Lock),
            LockingStage::Check => Action::Inspect(Place::Lock),
            LockingStage::Open => Action::OpenLock(FILE_MODE),
            LockingStage::Take => Action::TakeLock,
        }
    }

    /// The replies from `at` on lead to this stage.
    pub open spec fn reached(self, replies: Seq<Reply>, at: int) -> bool {
        &&& 0 <= at <= replies.len()
        &&& registry_locked(replies, at) == Verdict::<(), RegistryError>::Asks(self.action())
        &&& match self {
            LockingStage::Look => replies.len() == at,
            LockingStage::Check => replies.len() == at + 1 && !(replies[at] is Failed),
            LockingStage::Open => {
                ||| replies.len() == at + 1 && replies[at] is Failed
                ||| replies.len() == at + 2 && !(replies[at] is Failed)
            },
            LockingStage::Take => {
                ||| replies.len() == at + 2 && replies[at] is Failed
                ||| replies.len() == at + 3 && !(replies[at] is Failed)
            },
        }
    }

    /// Takes the reply to the pending action.
    pub(crate) fn resume(
        self,
        reply: Reply,
        Ghost(replies): Ghost<Seq<Reply>>,
        Ghost(at): Ghost<int>,
    ) -> (step: LockingStep)
        requires
            self.reached(replies, at),
            self.action().answered_by(reply),
        ensures
            match step {
                LockingStep::Asks(stage) => stage.reached(replies.push(reply), at),
                LockingStep::Passes => registry_locked(replies.push(reply), at) == Verdict::<
                    (),
                    RegistryError,
                >::Passes((), 1 + replies.len() as int),
                LockingStep::Fails(error) => registry_locked(replies.push(reply), at)
                    == Verdict::<(), RegistryError>::Fails(error, 1 + replies.len() as int),
            },
    {
        match self {
            LockingStage::Look => match reply {
                Reply::Failed(failure) => if failure.not_found {
                    LockingStep::Asks(LockingStage::Open)
                } else {
                    LockingStep::Fails(RegistryError::Io(failure))
                },
                _ => LockingStep::Asks(LockingStage::Check),
            },
            LockingStage::Check => match checks::ensure_private_file(
                Place::Lock,
                reply.into_inspection(),
            ) {
                Ok(_) => LockingStep::Asks(LockingStage::Open),
                Err(error) => LockingStep::Fails(error),
            },
            LockingStage::Open => match reply {
                Reply::Failed(failure) => LockingStep::Fails(RegistryError::Io(failure)),
                _ => LockingStep::Asks(LockingStage::Take),
            },
            LockingStage::Take => match reply {
                Reply::Failed(failure) => LockingStep::Fails(RegistryError::CannotLock(failure)),
                _ => LockingStep::Passes,
            },
        }
    }
}

/// How the lock fares. A lock file that is there has to be a regular file of the user with mode
/// 0600; one that is missing is none the worse; other failures to look are refused. Then the file
/// is opened and the lock is taken.
pub proof fn lock_is_decided(replies: Seq<Reply>, at: int)
    requires
        0 <= at,
    ensures
        ({
            let verdict = registry_locked(replies, at);
            let n = replies.len();
            let missing = n > at && replies[at] is Failed && replies[at]->Failed_0.not_found;
            let looked = n > at + 1 && replies[at] is Facts && replies[at + 1] is Facts;
            let facts = replies[at + 1]->Facts_0;
            let genuine = looked && facts.regular && !facts.symlink;
            let access = facts.access->0;
            &&& n <= at ==> verdict == Verdict::<(), RegistryError>::Asks(
                Action::Inspect(Place::Lock),
            )
            &&& missing ==> verdict == lock_taken(replies, at + 1)
            &&& n > at && replies[at] is Failed && !missing ==> verdict == Verdict::<
                (),
                RegistryError,
            >::Fails(RegistryError::Io(replies[at]->Failed_0), at + 1)
            &&& n == at + 1 && replies[at] is Facts ==> verdict == Verdict::<
                (),
                RegistryError,
            >::Asks(Action::Inspect(Place::Lock))
            &&& n > at + 1 && replies[at] is Facts && replies[at + 1] is Failed ==> verdict
                == Verdict::<(), RegistryError>::Fails(
                RegistryError::Io(replies[at + 1]->Failed_0),
                at + 2,
            )
            &&& looked && !genuine ==> verdict == Verdict::<(), RegistryError>::Fails(
                RegistryError::NotAFile(Place::Lock),
                at + 2,
            )
            &&& genuine && facts.access is Some && access.owner != access.user ==> verdict
                == Verdict::<(), RegistryError>::Fails(RegistryError::NotOwned(Place::Lock), at + 2)
            &&& genuine && facts.access is Some && access.owner == access.user && access.mode
                & 0o777 != 0o600 ==> verdict == Verdict::<(), RegistryError>::Fails(
                RegistryError::WrongMode(Place::Lock, 0o600),
                at + 2,
            )
            &&& genuine && (facts.access is None || access.owner == access.user && access.mode
                & 0o777 == 0o600) ==> verdict == lock_taken(replies, at + 2)
        }),
{
}

/// The lock file is opened with mode 0600, and then the lock is taken; a failure of either ends it.
pub proof fn taking_the_lock_is_decided(replies: Seq<Reply>, at: int)
    requires
        0 <= at,
    ensures
        ({
            let verdict = lock_taken(replies, at);
            let n = replies.len();
            &&& n <= at ==> verdict == Verdict::<(), RegistryError>::Asks(Action::OpenLock(0o600))
            &&& n > at && replies[at] is Failed ==> verdict == Verdict::<(), RegistryError>::Fails(
                RegistryError::Io(replies[at]->Failed_0),
                at + 1,
            )
            &&& n == at + 1 && replies[at] is Done ==> verdict == Verdict::<
                (),
                RegistryError,
            >::Asks(Action::TakeLock)
            &&& n > at + 1 && replies[at] is Done && replies[at + 1] is Failed ==> verdict
                == Verdict::<(), RegistryError>::Fails(
                RegistryError::CannotLock(replies[at + 1]->Failed_0),
                at + 2,
            )
            &&& n > at + 1 && replies[at] is Done && replies[at + 1] is Done ==> verdict
                == Verdict::<(), RegistryError>::Passes((), at + 2)
        }),
{
}

} // verus!
