//! Writing the registry file: the new document goes into a temporary file, which then takes the
//! place of the registry in one step.

use vstd::prelude::*;

use crate::checks;
use crate::directory;
use crate::directory::{DirectoryStage, DirectoryStep};
use crate::protocol::{Action, IoFailure, Place, RegistryError, Reply, Verdict, FILE_MODE};

verus! {

/// The number of steps from the temporary file to the new registry.
pub const PUBLICATION_STEPS: u8 = 6;

/// The steps from the temporary file to the new registry.
pub open spec fn publication_action(k: int) -> Action {
    if k == 0 {
        Action::CreateTemporary(FILE_MODE)
    } else if k == 1 {
        Action::WriteDocument
    } else if k == 2 {
        Action::WriteLineEnd
    } else if k == 3 {
        Action::SyncTemporary
    } else if k == 4 {
        Action::ReplaceRegistry
    } else {
        Action::SyncDirectory
    }
}

/// What the replies say of the steps from the one at `k` on, where the reply to the first step is
/// at index `at`. Where a step fails, the temporary file is removed, whether or not that works.
pub open spec fn published(replies: Seq<Reply>, at: int, k: int) -> Verdict<(), RegistryError>
    decreases PUBLICATION_STEPS - k,
{
    if k >= PUBLICATION_STEPS {
        Verdict::Passes((), at + PUBLICATION_STEPS)
    } else if replies.len() <= at + k {
        Verdict::Asks(publication_action(k))
    } else if let Reply::Failed(failure) = replies[at + k] {
        if replies.len() == at + k + 1 {
            Verdict::Asks(Action::RemoveTemporary)
        } else {
            Verdict::Fails(RegistryError::Io(failure), at + k + 2)
        }
    } else {
        published(replies, at, k + 1)
    }
}

/// What the replies from index `at` on say of the writing. The directory is made sure of again,
/// and a registry that has become a link is refused, before anything is written.
pub open spec fn registry_written(replies: Seq<Reply>, at: int) -> Verdict<(), RegistryError> {
    match directory::private_directory(replies, at) {
        Verdict::Asks(action) => Verdict::Asks(action),
        Verdict::Fails(error, used) => Verdict::Fails(error, used),
        Verdict::Passes(_, used) => if replies.len() <= used {
            Verdict::Asks(Action::Inspect(Place::Registry))
        } else if let Err(error) = checks::unless_symlinked(
            Place::Registry,
            replies[used].inspection(),
        ) {
            Verdict::Fails(error, used + 1)
        } else if replies.len() == used + 1 {
            Verdict::Asks(Action::NameTemporary)
        } else {
            published(replies, used + 2, 0)
        },
    }
}

/// Where the writing of the registry stands.
pub enum Writing {
    Directory(DirectoryStage),
    Look,
    Name,
    Publish(u8),
    Remove(IoFailure),
}

/// What a reply leads to.
pub enum WritingStep {
    Asks(Writing),
    Passes,
    Fails(RegistryError),
}

/// The index of the reply on the registry file that follows the check of the directory.
spec fn look_at(replies: Seq<Reply>, at: int) -> int {
    directory::private_directory(replies, at)->Passes_1
}

/// The directory has passed, the registry is no link, and the first `k` steps have succeeded.
spec fn steps_done(replies: Seq<Reply>, at: int, k: int) -> bool {
    let look = look_at(replies, at);
    &&& directory::private_directory(replies, at) is Passes
    &&& 0 <= at < look
    &&& checks::unless_symlinked(Place::Registry, replies[look].inspection()) is Ok
    &&& 0 <= k <= PUBLICATION_STEPS
    &&& replies.len() >= look + 2 + k
    &&& forall|j: int| 0 <= j < k ==> !(#[trigger] replies[look + 2 + j] is Failed)
}

proof fn published_resumes(replies: Seq<Reply>, at: int, k: int)
    requires
        0 <= k <= PUBLICATION_STEPS,
        0 <= at,
        replies.len() >= at + k,
        forall|j: int| 0 <= j < k ==> !(#[trigger] replies[at + j] is Failed),
    ensures
        published(replies, at, 0) == published(replies, at, k),
    decreases k,
{
    if k > 0 {
        published_resumes(replies, at, k - 1);
        assert(!(replies[at + (k - 1)] is Failed));
    }
}

proof fn publication_verdict_stands(replies: Seq<Reply>, reply: Reply, at: int, k: int)
    requires
        0 <= at,
        0 <= k <= PUBLICATION_STEPS,
        replies.len() >= at + k,
        !(published(replies, at, k) is Asks),
    ensures
        published(replies.push(reply), at, k) == published(replies, at, k),
        match published(replies, at, k) {
            Verdict::Asks(_) => true,
            Verdict::Passes(_, used) => at < used <= replies.len(),
            Verdict::Fails(_, used) => at < used <= replies.len(),
        },
    decreases PUBLICATION_STEPS - k,
{
    if k < PUBLICATION_STEPS && replies.len() > at + k && !(replies[at + k] is Failed) {
        publication_verdict_stands(replies, reply, at, k + 1);
    }
}

/// A verdict that has been reached stands, whatever is replied later.
pub proof fn write_verdict_stands(replies: Seq<Reply>, reply: Reply, at: int)
    requires
        0 <= at,
        !(registry_written(replies, at) is Asks),
    ensures
        registry_written(replies.push(reply), at) == registry_written(replies, at),
        match registry_written(replies, at) {
            Verdict::Asks(_) => true,
            Verdict::Passes(_, used) => at < used <= replies.len(),
            Verdict::Fails(_, used) => at < used <= replies.len(),
        },
{
    directory::directory_verdict_stands(replies, reply, at);
    if let Verdict::Passes(_, used) = directory::private_directory(replies, at) {
        if replies.len() > used + 1 {
            if !(published(replies, used + 2, 0) is Asks) {
                publication_verdict_stands(replies, reply, used + 2, 0);
            }
        }
    }
}

impl Writing {
    pub open spec fn action(self) -> Action {
        match self {
            Writing::Directory(stage) => stage.action(),
            Writing::Look => Action::Inspect(Place::Registry),
            Writing::Name => Action::NameTemporary,
            Writing::Publish(k) => publication_action(k as int),
            Writing::Remove(_) => Action::RemoveTemporary,
        }
    }

    /// The action that is waited for.
    pub fn pending(&self) -> (action: Action)
        ensures
            action == self.action(),
    {
        match self {
            Writing::Directory(stage) => stage.pending(),
            Writing::Look => Action::Inspect(Place::Registry),
            Writing::Name => Action::NameTemporary,
            Writing::Publish(k) => match *k {
                0 => Action::CreateTemporary(FILE_MODE),
                1 => Action::WriteDocument,
                2 => Action::WriteLineEnd,
                3 => Action::SyncTemporary,
                4 => Action::ReplaceRegistry,
                _ => Action::SyncDirectory,
            },
            Writing::Remove(_) => Action::RemoveTemporary,
        }
    }

    /// The replies from `at` on lead to this stage.
    pub closed spec fn reached(self, replies: Seq<Reply>, at: int) -> bool {
        let look = look_at(replies, at);
        &&& 0 <= at <= replies.len()
        &&& match self {
            Writing::Directory(stage) => stage.reached(replies, at),
            Writing::Look => {
                &&& directory::private_directory(replies, at) is Passes
                &&& replies.len() == look
                &&& at < look
            },
            Writing::Name => {
                &&& directory::private_directory(replies, at) is Passes
                &&& replies.len() == look + 1
                &&& at < look
                &&& checks::unless_symlinked(Place::Registry, replies[look].inspection()) is Ok
            },
            Writing::Publish(k) => {
                &&& k < PUBLICATION_STEPS
                &&& steps_done(replies, at, k as int)
                &&& replies.len() == look + 2 + k
            },
            Writing::Remove(failure) => {
                &&& replies.len() > look + 2
                &&& replies.len() - look - 3 < PUBLICATION_STEPS
                &&& steps_done(replies, at, replies.len() - look - 3)
                &&& replies.last() == Reply::Failed(failure)
            },
        }
    }

    /// Begins with the check of the directory.
    pub(crate) fn start(Ghost(replies): Ghost<Seq<Reply>>) -> (writing: Self)
        ensures
            writing.reached(replies, replies.len() as int),
    {
        Writing::Directory(DirectoryStage::Look)
    }

    /// A stage that is reached has its action pending.
    pub proof fn reached_asks(self, replies: Seq<Reply>, at: int)
        requires
            self.reached(replies, at),
        ensures
            registry_written(replies, at) == Verdict::<(), RegistryError>::Asks(self.action()),
    {
        let look = look_at(replies, at);
        match self {
            Writing::Publish(k) => {
                published_resumes(replies, look + 2, k as int);
            },
            Writing::Remove(_) => {
                published_resumes(replies, look + 2, replies.len() - look - 3);
            },
            _ => {},
        }
    }

    /// Takes the reply to the pending action.
    pub(crate) fn resume(
        self,
        reply: Reply,
        Ghost(replies): Ghost<Seq<Reply>>,
        Ghost(at): Ghost<int>,
    ) -> (step: WritingStep)
        requires
            self.reached(replies, at),
            self.action().answered_by(reply),
        ensures
            step.leads_to(replies.push(reply), at),
    {
        let ghost now = replies.push(reply);
        let ghost look = look_at(replies, at);
        proof {
            if directory::private_directory(replies, at) is Passes {
                directory::directory_verdict_stands(replies, reply, at);
            }
        }
        let step = match self {
            Writing::Directory(stage) => match stage.resume(reply, Ghost(replies), Ghost(at)) {
                DirectoryStep::Asks(stage) => WritingStep::Asks(Writing::Directory(stage)),
                DirectoryStep::Passes => WritingStep::Asks(Writing::Look),
                DirectoryStep::Fails(error) => WritingStep::Fails(error),
            },
            Writing::Look => match checks::reject_symlink(
                Place::Registry,
                reply.into_inspection(),
            ) {
                Ok(_) => WritingStep::Asks(Writing::Name),
                Err(error) => WritingStep::Fails(error),
            },
            Writing::Name => WritingStep::Asks(Writing::Publish(0)),
            Writing::Publish(k) => {
                proof {
                    assert forall|j: int| 0 <= j < k implies !(#[trigger] now[look + 2
                        + j] is Failed) by {
                        assert(now[look + 2 + j] == replies[look + 2 + j]);
                    }
                    assert(steps_done(now, at, k as int));
                }
                match reply {
                    Reply::Failed(failure) => WritingStep::Asks(Writing::Remove(failure)),
                    _ => {
                        assert(steps_done(now, at, k + 1));
                        if k + 1 < PUBLICATION_STEPS {
                            WritingStep::Asks(Writing::Publish(k + 1))
                        } else {
                            proof {
                                published_resumes(now, look + 2, k + 1);
                            }
                            WritingStep::Passes
                        }
                    },
                }
            },
            Writing::Remove(failure) => {
                proof {
                    let k = replies.len() - look - 3;
                    assert forall|j: int| 0 <= j < k implies !(#[trigger] now[look + 2
                        + j] is Failed) by {
                        assert(now[look + 2 + j] == replies[look + 2 + j]);
                    }
                    published_resumes(now, look + 2, k);
                    assert(now[look + 2 + k] == replies.last());
                }
                WritingStep::Fails(RegistryError::Io(failure))
            },
        };
        proof {
            if step is Asks {
                step->Asks_0.reached_asks(now, at);
            }
        }
        step
    }
}

impl WritingStep {
    /// This is what the replies from `at` on amount to.
    pub open spec fn leads_to(self, replies: Seq<Reply>, at: int) -> bool {
        match self {
            WritingStep::Asks(writing) => {
                &&& writing.reached(replies, at)
                &&& registry_written(replies, at) == Verdict::<(), RegistryError>::Asks(
                    writing.action(),
                )
            },
            WritingStep::Passes => registry_written(replies, at) == Verdict::<
                (),
                RegistryError,
            >::Passes((), replies.len() as int),
            WritingStep::Fails(error) => registry_written(replies, at) == Verdict::<
                (),
                RegistryError,
            >::Fails(error, replies.len() as int),
        }
    }
}

/// The steps of the publication, in order: the file is created with mode 0600, the document and the
/// line end are written, the file is flushed, takes the place of the registry, and the directory is
/// flushed.
pub proof fn publication_has_six_steps()
    ensures
        publication_action(0) == Action::CreateTemporary(0o600),
        publication_action(1) == Action::WriteDocument,
        publication_action(2) == Action::WriteLineEnd,
        publication_action(3) == Action::SyncTemporary,
        publication_action(4) == Action::ReplaceRegistry,
        publication_action(5) == Action::SyncDirectory,
        PUBLICATION_STEPS == 6,
{
}

/// A publication that has got `k` steps done asks for the next one; where a step fails, it asks for
/// the removal of the temporary file and then fails with that failure, whatever the removal came
/// to; and with all six steps done it passes.
pub proof fn publication_is_decided(replies: Seq<Reply>, at: int, k: int)
    requires
        0 <= at,
        0 <= k <= 6,
        replies.len() >= at + k,
        forall|i: int| 0 <= i < k ==> #[trigger] replies[at + i] is Done,
    ensures
        ({
            let verdict = published(replies, at, 0);
            &&& k == 6 ==> verdict == Verdict::<(), RegistryError>::Passes((), at + 6)
            &&& k < 6 && replies.len() == at + k ==> verdict == Verdict::<
                (),
                RegistryError,
            >::Asks(publication_action(k))
            &&& k < 6 && replies.len() == at + k + 1 && replies[at + k] is Failed ==> verdict
                == Verdict::<(), RegistryError>::Asks(Action::RemoveTemporary)
            &&& k < 6 && replies.len() > at + k + 1 && replies[at + k] is Failed ==> verdict
                == Verdict::<(), RegistryError>::Fails(
                RegistryError::Io(replies[at + k]->Failed_0),
                at + k + 2,
            )
        }),
{
    assert forall|i: int| 0 <= i < k implies !(#[trigger] replies[at + i] is Failed) by {
        assert(replies[at + i] is Done);
    }
    published_resumes(replies, at, k);
}

/// The directory is made sure of first; then the registry must not be a link, though it may be
/// missing; then the temporary file gets its name and the publication begins.
pub proof fn writing_is_decided(replies: Seq<Reply>, at: int)
    requires
        0 <= at,
    ensures
        ({
            let verdict = registry_written(replies, at);
            let checked = directory::private_directory(replies, at);
            let look = checked->Passes_1;
            let n = replies.len();
            let clear = checked is Passes && n > look && (replies[look] is Facts
                && !replies[look]->Facts_0.symlink || replies[look] is Failed
                && replies[look]->Failed_0.not_found);
            &&& checked is Asks ==> verdict == Verdict::<(), RegistryError>::Asks(checked->Asks_0)
            &&& checked is Fails ==> verdict == Verdict::<(), RegistryError>::Fails(
                checked->Fails_0,
                checked->Fails_1,
            )
            &&& checked is Passes && n <= look ==> verdict == Verdict::<(), RegistryError>::Asks(
                Action::Inspect(Place::Registry),
            )
            &&& checked is Passes && n > look && replies[look] is Facts
                && replies[look]->Facts_0.symlink ==> verdict == Verdict::<
                (),
                RegistryError,
            >::Fails(RegistryError::Symlinked(Place::Registry), look + 1)
            &&& checked is Passes && n > look && replies[look] is Failed
                && !replies[look]->Failed_0.not_found ==> verdict == Verdict::<
                (),
                RegistryError,
            >::Fails(RegistryError::Io(replies[look]->Failed_0), look + 1)
            &&& clear && n == look + 1 ==> verdict == Verdict::<(), RegistryError>::Asks(
                Action::NameTemporary,
            )
            &&& clear && n > look + 1 ==> verdict == published(replies, look + 2, 0)
        }),
{
}

} // verus!
