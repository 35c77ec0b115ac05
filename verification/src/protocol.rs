//! What a registry procedure asks of the operating system, what it is told, and how it fails.
//!
//! A procedure never touches the file system. It asks for one [`Action`] at a time; its caller
//! performs the action and hands back a [`Reply`]. Actions name their files by [`Place`].

use vstd::pervasive::unreached;
use vstd::prelude::*;

use crate::paths;

verus! {

/// The mode of the directory that holds the registry: private to its owner.
pub const DIRECTORY_MODE: u32 = 0o700;

/// The mode of the registry file, its lock and its temporary files: private to their owner.
pub const FILE_MODE: u32 = 0o600;

/// The bits of a file's mode that say who may read, write and search it.
pub const PERMISSION_BITS: u32 = 0o777;

/// The files and directories that a procedure deals with.
#[derive(Clone, Copy, Debug, PartialEq, Eq, Structural)]
pub enum Place {
    /// The directory that holds the registry.
    Directory,
    /// The registry file.
    Registry,
    /// The file that is locked while the registry changes.
    Lock,
    /// The file that is written before it replaces the registry.
    Temporary,
    /// The workspace that was selected, as it was given.
    Selection,
    /// The workspace at an index of the registry's document, as it is stored there.
    Entry(usize),
    /// The path that the last `Resolve` gave.
    Resolved,
}

/// One piece of outside work.
#[derive(Clone, Copy, Debug, PartialEq, Eq, Structural)]
pub enum Action {
    /// Look at a file without following a symbolic link: `Facts` or `Failed`.
    Inspect(Place),
    /// Find out whether the registry's directory exists, links followed: `Existence`.
    TestDirectory,
    /// Create the registry's directory and its ancestors: `Done` or `Failed`.
    CreateDirectory,
    /// Give the registry's directory this mode: `Done` or `Failed`.
    SetDirectoryMode(u32),
    /// Read the registry file and decode it: `Document`, `Unreadable` or `Malformed`.
    ReadRegistry,
    /// Find the canonical absolute path of a workspace, links followed: `Resolved` or `Failed`.
    Resolve(Place),
    /// Open the lock file, creating it with this mode where it is missing: `Done` or `Failed`.
    OpenLock(u32),
    /// Wait for the exclusive lock on the open lock file: `Done` or `Failed`.
    TakeLock,
    /// Give up the lock: `Done` or `Failed`.
    ReleaseLock,
    /// Say what makes the next temporary file's name unique: `Unique`.
    NameTemporary,
    /// Create the temporary file, which must not exist yet, with this mode: `Done` or `Failed`.
    CreateTemporary(u32),
    /// Encode the new document into the temporary file: `Done` or `Failed`.
    WriteDocument,
    /// End the temporary file with a line feed: `Done` or `Failed`.
    WriteLineEnd,
    /// Flush the temporary file to disk: `Done` or `Failed`.
    SyncTemporary,
    /// Put the temporary file in the place of the registry, atomically: `Done` or `Failed`.
    ReplaceRegistry,
    /// Flush the registry's directory to disk: `Done` or `Failed`.
    SyncDirectory,
    /// Remove the temporary file: `Done` or `Failed`.
    RemoveTemporary,
    /// Take the new list over into memory: `Done`.
    Adopt,
}

/// Who owns a file, who is asking, and the file's mode.
#[derive(Clone, Copy, Debug, PartialEq, Eq, Structural)]
pub struct Access {
    pub owner: u32,
    pub user: u32,
    pub mode: u32,
}

/// What an inspection found. Where the platform has no owners and modes, `access` is `None`.
#[derive(Clone, Copy, Debug, PartialEq, Eq, Structural)]
pub struct FileFacts {
    pub symlink: bool,
    pub directory: bool,
    pub regular: bool,
    pub access: Option<Access>,
}

/// An operation that the operating system refused.
#[derive(Debug, PartialEq, Eq)]
pub struct IoFailure {
    pub not_found: bool,
    pub detail: String,
}

/// A remembered workspace.
#[derive(Debug, PartialEq, Eq)]
pub struct WorkspaceRecord {
    pub path: Vec<u8>,
    pub last_used_ms: u64,
}

/// The content of a registry file.
#[derive(Debug, PartialEq, Eq)]
pub struct RegistryDocument {
    pub version: u32,
    pub workspaces: Vec<WorkspaceRecord>,
}

/// The answer to an [`Action`].
#[derive(Debug, PartialEq, Eq)]
pub enum Reply {
    Done,
    Failed(IoFailure),
    Facts(FileFacts),
    Existence(bool),
    Document(RegistryDocument),
    Unreadable(IoFailure),
    Malformed(String),
    Resolved(Vec<u8>),
    Unique(u32, u64),
}

impl Action {
    /// Whether the action makes, changes or removes the file or directory at `place`.
    pub open spec fn changes(self, place: Place) -> bool {
        match self {
            Action::CreateDirectory => place is Directory,
            Action::SetDirectoryMode(_) => place is Directory,
            Action::OpenLock(_) => place is Lock,
            Action::CreateTemporary(_) => place is Temporary,
            Action::WriteDocument => place is Temporary,
            Action::WriteLineEnd => place is Temporary,
            Action::ReplaceRegistry => place is Registry || place is Temporary,
            Action::RemoveTemporary => place is Temporary,
            _ => false,
        }
    }

    /// Whether `reply` is of a kind that answers this action. A canonical path is absolute.
    pub open spec fn answered_by(self, reply: Reply) -> bool {
        match self {
            Action::Inspect(_) => reply is Facts || reply is Failed,
            Action::TestDirectory => reply is Existence,
            Action::ReadRegistry => reply is Document || reply is Unreadable || reply is Malformed,
            Action::Resolve(_) => match reply {
                Reply::Resolved(path) => paths::absolute(path@),
                _ => reply is Failed,
            },
            Action::NameTemporary => reply is Unique,
            Action::Adopt => reply is Done,
            _ => reply is Done || reply is Failed,
        }
    }

    /// Tells whether `reply` is of a kind that answers this action. A canonical path is absolute.
    pub fn accepts(&self, reply: &Reply) -> (accepted: bool)
        ensures
            accepted == self.answered_by(*reply),
    {
        match (self, reply) {
            (Action::Inspect(_), Reply::Facts(_)) => true,
            (Action::Inspect(_), Reply::Failed(_)) => true,
            (Action::Inspect(_), _) => false,
            (Action::TestDirectory, Reply::Existence(_)) => true,
            (Action::TestDirectory, _) => false,
            (Action::ReadRegistry, Reply::Document(_)) => true,
            (Action::ReadRegistry, Reply::Unreadable(_)) => true,
            (Action::ReadRegistry, Reply::Malformed(_)) => true,
            (Action::ReadRegistry, _) => false,
            (Action::Resolve(_), Reply::Resolved(path)) => paths::is_absolute(path.as_slice()),
            (Action::Resolve(_), Reply::Failed(_)) => true,
            (Action::Resolve(_), _) => false,
            (Action::NameTemporary, Reply::Unique(_, _)) => true,
            (Action::NameTemporary, _) => false,
            (_, Reply::Done) => true,
            (Action::Adopt, _) => false,
            (_, Reply::Failed(_)) => true,
            (_, _) => false,
        }
    }
}

impl Reply {
    /// The outcome of an inspection.
    pub open spec fn inspection(self) -> Result<FileFacts, IoFailure> {
        if self is Facts {
            Ok(self->Facts_0)
        } else {
            Err(self->Failed_0)
        }
    }

    /// Takes the outcome of an inspection.
    pub fn into_inspection(self) -> (outcome: Result<FileFacts, IoFailure>)
        requires
            self is Facts || self is Failed,
        ensures
            outcome == self.inspection(),
    {
        match self {
            Reply::Facts(facts) => Ok(facts),
            Reply::Failed(failure) => Err(failure),
            _ => unreached(),
        }
    }

    /// The canonical path that was found, or why there is none.
    pub open spec fn resolution(self) -> Result<Vec<u8>, IoFailure> {
        if self is Resolved {
            Ok(self->Resolved_0)
        } else {
            Err(self->Failed_0)
        }
    }

    /// Takes the canonical path that was found.
    pub fn into_resolution(self) -> (outcome: Result<Vec<u8>, IoFailure>)
        requires
            self is Resolved || self is Failed,
        ensures
            outcome == self.resolution(),
    {
        match self {
            Reply::Resolved(path) => Ok(path),
            Reply::Failed(failure) => Err(failure),
            _ => unreached(),
        }
    }
}

/// Why a path cannot be used as a workspace.
#[derive(Debug, PartialEq, Eq)]
pub enum SelectionError {
    NotAbsolute,
    Missing(IoFailure),
    Uninspectable(IoFailure),
    NotADirectory,
}

/// Why a procedure failed.
#[derive(Debug, PartialEq, Eq)]
pub enum RegistryError {
    /// The registry's path has no parent.
    NoParent,
    /// No home directory is known to keep the registry in.
    HomeNotSet,
    /// A state file or the state directory is a symbolic link.
    Symlinked(Place),
    /// The state directory is not a real directory.
    NotADirectory(Place),
    /// A state file is not a regular file.
    NotAFile(Place),
    /// A state file or the state directory belongs to someone else.
    NotOwned(Place),
    /// A state file or the state directory does not have this mode.
    WrongMode(Place, u32),
    /// The registry file could not be inspected.
    CannotInspectRegistry(IoFailure),
    /// The state directory could not be created.
    CannotCreateDirectory(IoFailure),
    /// The registry file could not be read.
    CannotReadRegistry(IoFailure),
    /// The registry file does not hold a document.
    MalformedRegistry(String),
    /// The lock could not be taken.
    CannotLock(IoFailure),
    /// Another operation failed.
    Io(IoFailure),
    /// The document has a version that is not supported.
    UnsupportedVersion(u32),
    /// The selected path cannot be used.
    InvalidSelection(SelectionError),
    /// A stored path is not one that a workspace can have.
    InvalidEntry(Vec<u8>, SelectionError),
    /// A stored path is not the canonical one.
    NotCanonical(Vec<u8>),
    /// Two entries of the document have the same path.
    DuplicatePath,
}

/// How far the replies seen so far take a procedure, as a specification value: what it asks for
/// next, or what it arrives at and how many replies it has used by then.
pub enum Verdict<T, E> {
    Asks(Action),
    Passes(T, int),
    Fails(E, int),
}

/// Where a whole procedure stands, as a specification value.
pub enum Status<T> {
    Asks(Action),
    Succeeds(T),
    Fails(RegistryError),
}

/// Which actions each reply answers. A resolution answers with an absolute path, whatever it is.
pub proof fn replies_answer_their_actions(action: Action, reply: Reply)
    ensures
        action.answered_by(reply) <==> match reply {
            Reply::Done => !(action is Inspect || action is TestDirectory || action is ReadRegistry
                || action is Resolve || action is NameTemporary),
            Reply::Failed(_) => !(action is TestDirectory || action is ReadRegistry
                || action is NameTemporary || action is Adopt),
            Reply::Facts(_) => action is Inspect,
            Reply::Existence(_) => action is TestDirectory,
            Reply::Document(_) => action is ReadRegistry,
            Reply::Unreadable(_) => action is ReadRegistry,
            Reply::Malformed(_) => action is ReadRegistry,
            Reply::Resolved(path) => action is Resolve && path@.len() > 0 && path@[0] == 47,
            Reply::Unique(_, _) => action is NameTemporary,
        },
{
}

/// An outcome is what the reply holds.
pub proof fn outcomes_are_those_of_the_reply(facts: FileFacts, failure: IoFailure, path: Vec<u8>)
    ensures
        Reply::Facts(facts).inspection() == Ok::<FileFacts, IoFailure>(facts),
        Reply::Failed(failure).inspection() == Err::<FileFacts, IoFailure>(failure),
        Reply::Resolved(path).resolution() == Ok::<Vec<u8>, IoFailure>(path),
        Reply::Failed(failure).resolution() == Err::<Vec<u8>, IoFailure>(failure),
{
}

} // verus!
