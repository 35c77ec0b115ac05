//! Recording a launch: under the lock, the registry is read again, changed, and replaced.

use vstd::pervasive::unreached;
use vstd::prelude::*;

use crate::locking;
use crate::locking::{LockingStage, LockingStep};
use crate::names;
use crate::paths;
use crate::protocol::{
    Action, Place, RegistryDocument, RegistryError, Reply, SelectionError, Status, Verdict,
    WorkspaceRecord,
};
use crate::reading;
use crate::reading::{Reading, ReadingStep};
use crate::records;
use crate::records::{RecordView, REGISTRY_VERSION};
use crate::registry::WorkspaceRegistry;
use crate::selection;
use crate::writing;
use crate::writing::{Writing, WritingStep};

verus! {

/// What the replies say of the change that is made under the lock: the registry is read, and
/// then written. The reply on the registry file comes at index `at`.
pub open spec fn registry_changed(replies: Seq<Reply>, at: int) -> Verdict<(), RegistryError> {
    match reading::registry_read(replies, at) {
        Verdict::Asks(action) => Verdict::Asks(action),
        Verdict::Fails(error, used) => Verdict::Fails(error, used),
        Verdict::Passes(_, used) => writing::registry_written(replies, used),
    }
}

/// The change and what follows it: a new list is taken over into memory, and the lock is given
/// up in any case.
pub open spec fn change_concluded(
    canonical: Seq<u8>,
    replies: Seq<Reply>,
    at: int,
) -> Status<Seq<u8>> {
    match registry_changed(replies, at) {
        Verdict::Asks(action) => Status::Asks(action),
        Verdict::Fails(error, used) => if replies.len() <= used {
            Status::Asks(Action::ReleaseLock)
        } else {
            Status::Fails(error)
        },
        Verdict::Passes(_, used) => if replies.len() <= used {
            Status::Asks(Action::Adopt)
        } else if replies.len() == used + 1 {
            Status::Asks(Action::ReleaseLock)
        } else {
            Status::Succeeds(canonical)
        },
    }
}

/// Where the recording of a launch of `selected` stands after `replies`. It succeeds with the
/// canonical path of the workspace.
pub open spec fn record_status(selected: Seq<u8>, replies: Seq<Reply>) -> Status<Seq<u8>> {
    match selection::selection(selected, Place::Selection, replies, 0) {
        Verdict::Asks(action) => Status::Asks(action),
        Verdict::Fails(error, _) => Status::Fails(RegistryError::InvalidSelection(error)),
        Verdict::Passes(canonical, chosen) => match locking::registry_locked(replies, chosen) {
            Verdict::Asks(action) => Status::Asks(action),
            Verdict::Fails(error, _) => Status::Fails(error),
            Verdict::Passes(_, locked) => change_concluded(canonical, replies, locked),
        },
    }
}

/// The canonical path of the workspace, once it is known.
pub open spec fn chosen_path(selected: Seq<u8>, replies: Seq<Reply>) -> Option<Seq<u8>> {
    match selection::selection(selected, Place::Selection, replies, 0) {
        Verdict::Passes(canonical, _) => Some(canonical),
        _ => None,
    }
}

/// The index of the first reply on the registry file, once the lock is held.
pub open spec fn read_from(selected: Seq<u8>, replies: Seq<Reply>) -> Option<int> {
    match selection::selection(selected, Place::Selection, replies, 0) {
        Verdict::Passes(_, chosen) => match locking::registry_locked(replies, chosen) {
            Verdict::Passes(_, locked) => Some(locked),
            _ => None,
        },
        _ => None,
    }
}

/// The list that is to be taken over into memory, once the registry has been read under the lock:
/// what was listed, with the launch.
pub open spec fn recorded_list(
    selected: Seq<u8>,
    last_used_ms: u64,
    replies: Seq<Reply>,
) -> Option<Seq<RecordView>> {
    match (chosen_path(selected, replies), read_from(selected, replies)) {
        (Some(canonical), Some(at)) => match reading::registry_read(replies, at) {
            Verdict::Passes(list, _) => Some(records::upserted(list, canonical, last_used_ms)),
            _ => None,
        },
        _ => None,
    }
}

/// The records that are to be stored, once the registry has been read under the lock: all that it
/// held, the skipped ones among them, with the launch.
pub open spec fn stored_list(
    selected: Seq<u8>,
    last_used_ms: u64,
    replies: Seq<Reply>,
) -> Option<Seq<RecordView>> {
    match (chosen_path(selected, replies), read_from(selected, replies)) {
        (Some(canonical), Some(at)) => match reading::registry_read(replies, at) {
            Verdict::Passes(_, _) => Some(
                records::upserted(
                    reading::known_records(replies, at),
                    canonical,
                    last_used_ms,
                ),
            ),
            _ => None,
        },
        _ => None,
    }
}

/// Every reply answers what the recording asked.
pub open spec fn recording_run(selected: Seq<u8>, replies: Seq<Reply>) -> bool {
    forall|k: int|
        0 <= k < replies.len() ==> {
            let earlier = record_status(selected, #[trigger] replies.take(k));
            earlier is Asks && earlier->Asks_0.answered_by(replies[k])
        }
}

/// One more answer continues a run.
proof fn run_continues(selected: Seq<u8>, replies: Seq<Reply>, reply: Reply)
    requires
        recording_run(selected, replies),
        record_status(selected, replies) is Asks,
        record_status(selected, replies)->Asks_0.answered_by(reply),
    ensures
        recording_run(selected, replies.push(reply)),
{
    let now = replies.push(reply);
    assert(now.take(replies.len() as int) =~= replies);
    assert forall|k: int| 0 <= k < now.len() implies {
        let earlier = record_status(selected, #[trigger] now.take(k));
        earlier is Asks && earlier->Asks_0.answered_by(now[k])
    } by {
        if k < replies.len() {
            assert(now.take(k) =~= replies.take(k));
        }
    }
}

/// A path that has been chosen is absolute.
pub proof fn chosen_path_is_absolute(selected: Seq<u8>, replies: Seq<Reply>)
    requires
        recording_run(selected, replies),
        chosen_path(selected, replies) is Some,
    ensures
        paths::absolute(chosen_path(selected, replies)->0),
{
    assert(record_status(selected, replies.take(0)) == Status::<Seq<u8>>::Asks(
        Action::Resolve(Place::Selection),
    ));
}

/// What is to be listed and what is to be stored are in order, with distinct absolute paths.
pub proof fn recorded_list_is_sound(selected: Seq<u8>, last_used_ms: u64, replies: Seq<Reply>)
    requires
        recording_run(selected, replies),
        recorded_list(selected, last_used_ms, replies) is Some,
    ensures
        records::is_newest_first(recorded_list(selected, last_used_ms, replies)->0),
        records::distinct_paths(recorded_list(selected, last_used_ms, replies)->0),
        records::absolute_paths(recorded_list(selected, last_used_ms, replies)->0),
        stored_list(selected, last_used_ms, replies) is Some,
        records::is_newest_first(stored_list(selected, last_used_ms, replies)->0),
        records::distinct_paths(stored_list(selected, last_used_ms, replies)->0),
        records::absolute_paths(stored_list(selected, last_used_ms, replies)->0),
{
    let at = read_from(selected, replies)->0;
    let list = reading::registry_read(replies, at)->Passes_0;
    let known = reading::known_records(replies, at);
    let canonical = chosen_path(selected, replies)->0;
    locking::lock_verdict_stands(replies, Reply::Done, 2);
    chosen_path_is_absolute(selected, replies);
    reading::read_records_are_sound(replies, at);
    records::launch_is_remembered(list, canonical, last_used_ms);
    records::launch_keeps_paths_distinct(list, canonical, last_used_ms);
    records::launch_keeps_paths_absolute(list, canonical, last_used_ms);
    records::launch_is_remembered(known, canonical, last_used_ms);
    records::launch_keeps_paths_distinct(known, canonical, last_used_ms);
    records::launch_keeps_paths_absolute(known, canonical, last_used_ms);
}

/// What makes the name of the temporary file unique: the last such reply.
pub open spec fn unique_parts(replies: Seq<Reply>) -> Option<(u32, u64)>
    decreases replies.len(),
{
    if replies.len() == 0 {
        None
    } else if let Reply::Unique(process, sequence) = replies.last() {
        Some((process, sequence))
    } else {
        unique_parts(replies.drop_last())
    }
}

/// The path of the temporary file, once it has a name.
pub open spec fn temporary_of(location: Seq<u8>, replies: Seq<Reply>) -> Option<Seq<u8>> {
    match unique_parts(replies) {
        Some((process, sequence)) => Some(
            paths::renamed(location, names::temporary_name(process, sequence)),
        ),
        None => None,
    }
}

/// What a launch makes of the registry: the list in memory, and the records in the file.
struct Change {
    listed: Vec<WorkspaceRecord>,
    stored: Vec<WorkspaceRecord>,
}

enum RecordingStage {
    Resolve,
    Examine(Vec<u8>),
    Locking(Vec<u8>, LockingStage),
    Reading(Vec<u8>, Reading),
    Writing(Vec<u8>, Change, Writing),
    Adopt(Vec<u8>, Vec<WorkspaceRecord>),
    Release(Result<Vec<u8>, RegistryError>),
    Ended(Result<Vec<u8>, RegistryError>),
}

/// The recording of a launch.
pub struct Recording {
    path: Vec<u8>,
    directory: Vec<u8>,
    lock: Vec<u8>,
    temporary: Option<Vec<u8>>,
    selection: Vec<u8>,
    last_used_ms: u64,
    stage: RecordingStage,
    replies: Ghost<Seq<Reply>>,
}

impl Recording {
    /// The path of the registry file.
    pub closed spec fn location(&self) -> Seq<u8> {
        self.path@
    }

    /// The workspace that was launched, as it was given.
    pub closed spec fn selected(&self) -> Seq<u8> {
        self.selection@
    }

    /// When the workspace was launched.
    pub closed spec fn used_at(&self) -> u64 {
        self.last_used_ms
    }

    /// The replies so far.
    pub closed spec fn replies(&self) -> Seq<Reply> {
        self.replies@
    }

    /// Where the recording stands.
    pub open spec fn status(&self) -> Status<Seq<u8>> {
        record_status(self.selected(), self.replies())
    }

    /// The records that are to be stored, once the registry has been read under the lock.
    pub open spec fn stored(&self) -> Option<Seq<RecordView>> {
        stored_list(self.selected(), self.used_at(), self.replies())
    }

    /// The list that is to be taken over, once the registry has been read under the lock.
    pub open spec fn recorded(&self) -> Option<Seq<RecordView>> {
        recorded_list(self.selected(), self.used_at(), self.replies())
    }

    spec fn locked_at(self) -> int {
        locking::registry_locked(self.replies@, 2)->Passes_1
    }

    /// The workspace has been chosen and this is its canonical path.
    spec fn chosen(self, canonical: Seq<u8>) -> bool {
        selection::selection(self.selection@, Place::Selection, self.replies@, 0) == Verdict::<
            Seq<u8>,
            SelectionError,
        >::Passes(canonical, 2)
    }

    spec fn holds_lock(self) -> bool {
        locking::registry_locked(self.replies@, 2) is Passes
    }

    #[verifier::type_invariant]
    spec fn consistent(self) -> bool {
        &&& paths::parent_path(self.path@) == Some(self.directory@)
        &&& self.lock@ == paths::joined(self.directory@, names::lock_name())
        &&& names::optional_view(self.temporary) == temporary_of(self.path@, self.replies@)
        &&& recording_run(self.selection@, self.replies@)
        &&& self.stage_consistent()
    }

    spec fn stage_consistent(self) -> bool {
        match self.stage {
            RecordingStage::Resolve => {
                &&& self.replies@.len() == 0
                &&& paths::absolute(self.selection@)
            },
            RecordingStage::Examine(resolved) => {
                &&& self.replies@.len() == 1
                &&& paths::absolute(self.selection@)
                &&& self.replies@.last() == Reply::Resolved(resolved)
            },
            RecordingStage::Locking(canonical, stage) => {
                &&& self.chosen(canonical@)
                &&& stage.reached(self.replies@, 2)
            },
            RecordingStage::Reading(canonical, reading) => {
                &&& self.chosen(canonical@)
                &&& self.holds_lock()
                &&& reading.reached(self.replies@, self.locked_at())
            },
            RecordingStage::Writing(canonical, change, writing) => {
                let read = reading::registry_read(self.replies@, self.locked_at());
                &&& self.chosen(canonical@)
                &&& self.holds_lock()
                &&& read is Passes
                &&& records::record_views(change.listed@) == records::upserted(
                    read->Passes_0,
                    canonical@,
                    self.last_used_ms,
                )
                &&& records::record_views(change.stored@) == records::upserted(
                    reading::known_records(self.replies@, self.locked_at()),
                    canonical@,
                    self.last_used_ms,
                )
                &&& writing.reached(self.replies@, read->Passes_1)
            },
            RecordingStage::Adopt(canonical, list) => {
                let read = reading::registry_read(self.replies@, self.locked_at());
                &&& self.chosen(canonical@)
                &&& self.holds_lock()
                &&& read is Passes
                &&& records::record_views(list@) == records::upserted(
                    read->Passes_0,
                    canonical@,
                    self.last_used_ms,
                )
                &&& registry_changed(self.replies@, self.locked_at()) == Verdict::<
                    (),
                    RegistryError,
                >::Passes((), self.replies@.len() as int)
            },
            RecordingStage::Release(Ok(canonical)) => {
                &&& self.chosen(canonical@)
                &&& self.holds_lock()
                &&& registry_changed(self.replies@, self.locked_at()) == Verdict::<
                    (),
                    RegistryError,
                >::Passes((), self.replies@.len() - 1)
            },
            RecordingStage::Release(Err(error)) => {
                &&& chosen_path(self.selection@, self.replies@) is Some
                &&& self.holds_lock()
                &&& registry_changed(self.replies@, self.locked_at()) == Verdict::<
                    (),
                    RegistryError,
                >::Fails(error, self.replies@.len() as int)
            },
            RecordingStage::Ended(Ok(canonical)) => self.status() == Status::Succeeds(canonical@),
            RecordingStage::Ended(Err(error)) => self.status() == Status::<Seq<u8>>::Fails(error),
        }
    }

    /// What a stage waits for is what the status asks.
    proof fn stage_asks(self)
        requires
            self.stage_consistent(),
        ensures
            match self.stage {
                RecordingStage::Resolve => self.status() == Status::<Seq<u8>>::Asks(
                    Action::Resolve(Place::Selection),
                ),
                RecordingStage::Examine(_) => self.status() == Status::<Seq<u8>>::Asks(
                    Action::Inspect(Place::Resolved),
                ),
                RecordingStage::Locking(_, stage) => self.status() == Status::<Seq<u8>>::Asks(
                    stage.action(),
                ),
                RecordingStage::Reading(_, reading) => self.status() == Status::<Seq<u8>>::Asks(
                    reading.action(),
                ),
                RecordingStage::Writing(_, _, writing) => self.status() == Status::<Seq<u8>>::Asks(
                    writing.action(),
                ),
                RecordingStage::Adopt(_, _) => self.status() == Status::<Seq<u8>>::Asks(
                    Action::Adopt,
                ),
                RecordingStage::Release(_) => self.status() == Status::<Seq<u8>>::Asks(
                    Action::ReleaseLock,
                ),
                RecordingStage::Ended(_) => !(self.status() is Asks),
            },
    {
        match self.stage {
            RecordingStage::Reading(_, reading) => {
                reading.reached_asks(self.replies@, self.locked_at());
            },
            RecordingStage::Writing(_, _, writing) => {
                writing.reached_asks(
                    self.replies@,
                    reading::registry_read(self.replies@, self.locked_at())->Passes_1,
                );
            },
            _ => {},
        }
    }

    /// The action that the recording waits for, until it has ended.
    pub fn next(&self) -> (action: Option<Action>)
        ensures
            match self.status() {
                Status::Asks(asked) => action == Some(asked),
                _ => action is None,
            },
    {
        proof {
            use_type_invariant(self);
            self.stage_asks();
        }
        match &self.stage {
            RecordingStage::Resolve => Some(Action::Resolve(Place::Selection)),
            RecordingStage::Examine(_) => Some(Action::Inspect(Place::Resolved)),
            RecordingStage::Locking(_, stage) => Some(stage.pending()),
            RecordingStage::Reading(_, reading) => Some(reading.pending()),
            RecordingStage::Writing(_, _, writing) => Some(writing.pending()),
            RecordingStage::Adopt(_, _) => Some(Action::Adopt),
            RecordingStage::Release(_) => Some(Action::ReleaseLock),
            RecordingStage::Ended(_) => None,
        }
    }

    /// The path at a place that the recording deals with. The path of an entry is there while it
    /// is to be resolved, and a canonical path while it is to be inspected.
    pub fn path_of(&self, place: Place) -> (path: Option<&Vec<u8>>)
        ensures
            match place {
                Place::Registry => path is Some && path->0@ == self.location(),
                Place::Directory => path is Some && paths::parent_path(self.location()) == Some(
                    path->0@,
                ),
                Place::Lock => path is Some && path->0@ == paths::joined(
                    paths::parent_path(self.location())->0,
                    names::lock_name(),
                ),
                Place::Temporary => match temporary_of(self.location(), self.replies()) {
                    Some(temporary) => path is Some && path->0@ == temporary,
                    None => path is None,
                },
                Place::Selection => path is Some && path->0@ == self.selected(),
                Place::Entry(index) => if self.status() == Status::<Seq<u8>>::Asks(
                    Action::Resolve(place),
                ) {
                    let at = read_from(self.selected(), self.replies());
                    &&& path is Some
                    &&& at is Some
                    &&& *path->0 == self.replies()[at->0
                        + 2]->Document_0.workspaces@[index as int].path
                } else {
                    path is None
                },
                Place::Resolved => if self.status() == Status::<Seq<u8>>::Asks(
                    Action::Inspect(place),
                ) {
                    path is Some && self.replies().last() == Reply::Resolved(*path->0)
                } else {
                    path is None
                },
            },
    {
        proof {
            use_type_invariant(self);
            self.stage_asks();
            if let RecordingStage::Reading(_, reading) = &self.stage {
                reading.reached_paths(self.replies@, self.locked_at());
            }
        }
        match (place, &self.stage) {
            (Place::Registry, _) => Some(&self.path),
            (Place::Directory, _) => Some(&self.directory),
            (Place::Lock, _) => Some(&self.lock),
            (Place::Temporary, _) => self.temporary.as_ref(),
            (Place::Selection, _) => Some(&self.selection),
            (Place::Resolved, RecordingStage::Examine(resolved)) => Some(resolved),
            (Place::Entry(index), RecordingStage::Reading(_, reading)) => reading.entry(index),
            (Place::Resolved, RecordingStage::Reading(_, reading)) => reading.resolved(),
            _ => None,
        }
    }

    /// The document that is to be written: there from the time that the registry has been read
    /// until it has been written, or has failed to be.
    pub fn document(&self) -> (document: Option<RegistryDocument>)
        ensures
            document is Some <==> self.stored() is Some && self.status() is Asks
                && self.status()->Asks_0 != Action::Adopt && self.status()->Asks_0
                != Action::ReleaseLock,
            document is Some ==> {
                &&& document->0.version == REGISTRY_VERSION
                &&& document->0.version == 1
                &&& self.stored() == Some(records::record_views(document->0.workspaces@))
                &&& records::is_newest_first(records::record_views(document->0.workspaces@))
                &&& records::distinct_paths(records::record_views(document->0.workspaces@))
                &&& records::absolute_paths(records::record_views(document->0.workspaces@))
            },
            self.status() == Status::<Seq<u8>>::Asks(Action::WriteDocument) ==> document is Some,
    {
        proof {
            use_type_invariant(self);
            self.stage_asks();
            if let RecordingStage::Reading(_, reading) = &self.stage {
                reading.reached_asks(self.replies@, self.locked_at());
            }
            if self.recorded() is Some {
                recorded_list_is_sound(self.selection@, self.last_used_ms, self.replies@);
            }
        }
        match &self.stage {
            RecordingStage::Writing(_, change, _) => Some(
                RegistryDocument {
                    version: REGISTRY_VERSION,
                    workspaces: records::copy_records(&change.stored),
                },
            ),
            _ => None,
        }
    }

    /// The list that is to be taken over into memory.
    fn listing(&self) -> (list: Vec<WorkspaceRecord>)
        requires
            self.status() == Status::<Seq<u8>>::Asks(Action::Adopt),
        ensures
            self.recorded() == Some(records::record_views(list@)),
            records::is_newest_first(records::record_views(list@)),
            records::distinct_paths(records::record_views(list@)),
            records::absolute_paths(records::record_views(list@)),
    {
        proof {
            use_type_invariant(self);
            self.stage_asks();
        }
        match &self.stage {
            RecordingStage::Adopt(_, list) => {
                proof {
                    recorded_list_is_sound(self.selection@, self.last_used_ms, self.replies@);
                }
                records::copy_records(list)
            },
            _ => unreached(),
        }
    }

    /// Takes the reply to the pending action.
    pub fn resume(self, reply: Reply) -> (next: Self)
        requires
            self.status() is Asks,
            self.status()->Asks_0.answered_by(reply),
        ensures
            next.location() == self.location(),
            next.selected() == self.selected(),
            next.used_at() == self.used_at(),
            next.replies() == self.replies().push(reply),
    {
        proof {
            use_type_invariant(&self);
            self.stage_asks();
        }
        let ghost before = self.replies@;
        let ghost now = self.replies@.push(reply);
        let ghost locked = self.locked_at();
        let ghost read = reading::registry_read(before, locked);
        proof {
            assert(now.drop_last() =~= before);
            run_continues(self.selection@, before, reply);
            if locking::registry_locked(before, 2) is Passes {
                locking::lock_verdict_stands(before, reply, 2);
                if read is Passes {
                    reading::read_verdict_stands(before, reply, locked);
                    if !(writing::registry_written(before, read->Passes_1) is Asks) {
                        writing::write_verdict_stands(before, reply, read->Passes_1);
                    }
                } else if read is Fails {
                    reading::read_verdict_stands(before, reply, locked);
                }
            }
        }
        let Recording {
            path,
            directory,
            lock,
            temporary,
            selection: selected,
            last_used_ms,
            stage,
            replies: _,
        } = self;
        let temporary = match &reply {
            Reply::Unique(process, sequence) => Some(
                names::temporary_path(path.as_slice(), *process, *sequence),
            ),
            _ => temporary,
        };
        let stage = match stage {
            RecordingStage::Resolve => match reply.into_resolution() {
                Ok(resolved) => RecordingStage::Examine(resolved),
                Err(failure) => RecordingStage::Ended(
                    Err(RegistryError::InvalidSelection(SelectionError::Missing(failure))),
                ),
            },
            RecordingStage::Examine(resolved) => match selection::examine(
                reply.into_inspection(),
            ) {
                Ok(_) => RecordingStage::Locking(resolved, LockingStage::Look),
                Err(error) => RecordingStage::Ended(Err(RegistryError::InvalidSelection(error))),
            },
            RecordingStage::Locking(canonical, stage) => match stage.resume(
                reply,
                Ghost(before),
                Ghost(2),
            ) {
                LockingStep::Asks(stage) => RecordingStage::Locking(canonical, stage),
                LockingStep::Passes => RecordingStage::Reading(
                    canonical,
                    Reading::start(Ghost(now)),
                ),
                LockingStep::Fails(error) => RecordingStage::Ended(Err(error)),
            },
            RecordingStage::Reading(canonical, reading) => match reading.resume(
                reply,
                Ghost(before),
                Ghost(locked),
            ) {
                ReadingStep::Asks(reading) => RecordingStage::Reading(canonical, reading),
                ReadingStep::Passes(list, aside) => {
                    let known = records::copy_both(&list, &aside);
                    let listed = records::upsert(list, canonical.as_slice(), last_used_ms);
                    let stored = records::upsert(known, canonical.as_slice(), last_used_ms);
                    RecordingStage::Writing(
                        canonical,
                        Change { listed, stored },
                        Writing::start(Ghost(now)),
                    )
                },
                ReadingStep::Fails(error) => RecordingStage::Release(Err(error)),
            },
            RecordingStage::Writing(canonical, change, writing) => match writing.resume(
                reply,
                Ghost(before),
                Ghost(read->Passes_1),
            ) {
                WritingStep::Asks(writing) => RecordingStage::Writing(canonical, change, writing),
                WritingStep::Passes => RecordingStage::Adopt(canonical, change.listed),
                WritingStep::Fails(error) => RecordingStage::Release(Err(error)),
            },
            RecordingStage::Adopt(canonical, _) => RecordingStage::Release(Ok(canonical)),
            RecordingStage::Release(result) => RecordingStage::Ended(result),
            RecordingStage::Ended(_) => unreached(),
        };
        Recording {
            path,
            directory,
            lock,
            temporary,
            selection: selected,
            last_used_ms,
            stage,
            replies: Ghost(now),
        }
    }

    /// The canonical path of the recorded workspace, which is absolute, or why it could not be
    /// recorded.
    pub fn finish(self) -> (result: Result<Vec<u8>, RegistryError>)
        requires
            !(self.status() is Asks),
        ensures
            recording_run(self.selected(), self.replies()),
            result is Ok ==> paths::absolute(result->Ok_0@),
            result is Ok ==> {
                &&& self.replies()[0] is Resolved
                &&& result->Ok_0@ == self.replies()[0]->Resolved_0@
            },
            match self.status() {
                Status::Asks(_) => false,
                Status::Succeeds(canonical) => result is Ok && result->Ok_0@ == canonical,
                Status::Fails(error) => result == Err::<Vec<u8>, RegistryError>(error),
            },
    {
        proof {
            use_type_invariant(&self);
            self.stage_asks();
            if self.status() is Succeeds {
                chosen_path_is_absolute(self.selection@, self.replies@);
            }
            recorded_path_is_the_resolution(self.selection@, self.replies@);
        }
        match self.stage {
            RecordingStage::Ended(result) => result,
            _ => unreached(),
        }
    }
}

/// Time since the start of 1970.
#[derive(Clone, Copy, Debug, PartialEq, Eq, Structural)]
pub struct SinceEpoch {
    pub seconds: u64,
    pub nanoseconds: u32,
}

/// The number of milliseconds, modulo the range of `u64`. A clock that stands before 1970 reads
/// as its start.
pub open spec fn millis(time: Option<SinceEpoch>) -> int {
    match time {
        Some(time) => (time.seconds * 1000 + time.nanoseconds / 1_000_000)
            % 0x1_0000_0000_0000_0000,
        None => 0,
    }
}

/// A reading of the clock in milliseconds.
pub fn now_millis(time: Option<SinceEpoch>) -> (ms: u64)
    ensures
        ms == millis(time),
        time is None ==> ms == 0,
        time is Some && time->0.seconds * 1_000_000_000 + time->0.nanoseconds
            < 0x1_0000_0000_0000_0000 * 1_000_000 ==> ms * 1_000_000 <= time->0.seconds
            * 1_000_000_000 + time->0.nanoseconds < (ms + 1) * 1_000_000,
{
    match time {
        Some(time) => {
            let total: u128 = time.seconds as u128 * 1000 + (time.nanoseconds / 1_000_000) as u128;
            (total % 0x1_0000_0000_0000_0000) as u64
        },
        None => 0,
    }
}

impl WorkspaceRegistry {
    /// Starts the validation of a path that is to be used as a workspace.
    pub fn validate_selection(&self, path: Vec<u8>) -> (selecting: selection::Selecting)
        ensures
            selecting.selected() == path@,
            selecting.replies() == Seq::<Reply>::empty(),
    {
        selection::validate_workspace_selection(path)
    }

    /// Starts to record a launch of the workspace at `path`, at the time that the clock shows.
    pub fn record_launch(&self, path: Vec<u8>, now: Option<SinceEpoch>) -> (recording: Recording)
        ensures
            recording.location() == self.location(),
            recording.selected() == path@,
            recording.used_at() == millis(now),
            recording.replies() == Seq::<Reply>::empty(),
    {
        self.record_launch_at(path, now_millis(now))
    }

    /// Starts to record a launch of the workspace at `path`.
    pub fn record_launch_at(&self, path: Vec<u8>, last_used_ms: u64) -> (recording: Recording)
        ensures
            recording.location() == self.location(),
            recording.selected() == path@,
            recording.used_at() == last_used_ms,
            recording.replies() == Seq::<Reply>::empty(),
    {
        let location = paths::copy_bytes(self.path().as_slice());
        let directory = match paths::parent(location.as_slice()) {
            Some(directory) => directory,
            None => unreached(),
        };
        let lock = names::lock_path(directory.as_slice());
        let stage = if paths::is_absolute(path.as_slice()) {
            RecordingStage::Resolve
        } else {
            RecordingStage::Ended(
                Err(RegistryError::InvalidSelection(SelectionError::NotAbsolute)),
            )
        };
        Recording {
            path: location,
            directory,
            lock,
            temporary: None,
            selection: path,
            last_used_ms,
            stage,
            replies: Ghost(Seq::empty()),
        }
    }

    /// Takes over the list of a recording in this registry that has been stored.
    pub fn adopt(&mut self, recording: &Recording)
        requires
            recording.location() == old(self).location(),
            recording.status() == Status::<Seq<u8>>::Asks(Action::Adopt),
        ensures
            final(self).location() == old(self).location(),
            Some(final(self).listed()) == recording.recorded(),
    {
        self.replace_records(recording.listing());
    }
}

/// A clock reading is recorded in whole milliseconds: as long as they fit in the range of `u64`,
/// the recorded time is the last millisecond that had begun.
pub proof fn time_is_in_whole_milliseconds(time: SinceEpoch)
    ensures
        millis(None) == 0,
        0 <= millis(Some(time)) < 0x1_0000_0000_0000_0000,
        time.seconds * 1_000_000_000 + time.nanoseconds < 0x1_0000_0000_0000_0000 * 1_000_000
            ==> millis(Some(time)) * 1_000_000 <= time.seconds * 1_000_000_000 + time.nanoseconds
            < (millis(Some(time)) + 1) * 1_000_000,
{
}

/// Beyond the range of `u64` the milliseconds start again from zero.
pub proof fn time_wraps_around(time: SinceEpoch, turns: int)
    requires
        0 <= turns,
        turns * 0x1_0000_0000_0000_0000 * 1_000_000 <= time.seconds * 1_000_000_000
            + time.nanoseconds < (turns + 1) * 0x1_0000_0000_0000_0000 * 1_000_000,
    ensures
        ({
            let ms = millis(Some(time)) + turns * 0x1_0000_0000_0000_0000;
            ms * 1_000_000 <= time.seconds * 1_000_000_000 + time.nanoseconds < (ms + 1)
                * 1_000_000
        }),
{
}

/// A later reading of the clock never gives an earlier time, and one that is at least a
/// millisecond later gives a later time.
pub proof fn time_goes_forward(earlier: SinceEpoch, later: SinceEpoch)
    requires
        earlier.seconds * 1_000_000_000 + earlier.nanoseconds <= later.seconds * 1_000_000_000
            + later.nanoseconds < 0x1_0000_0000_0000_0000 * 1_000_000,
    ensures
        millis(Some(earlier)) <= millis(Some(later)),
        earlier.seconds * 1_000_000_000 + earlier.nanoseconds + 1_000_000 <= later.seconds
            * 1_000_000_000 + later.nanoseconds ==> millis(Some(earlier)) < millis(Some(later)),
{
}

/// The path that is chosen, and with which a recording succeeds, is exactly the one that the
/// selection was resolved to.
pub proof fn recorded_path_is_the_resolution(selected: Seq<u8>, replies: Seq<Reply>)
    ensures
        chosen_path(selected, replies) is Some <==> {
            &&& selected.len() > 0
            &&& selected[0] == 47
            &&& replies.len() >= 2
            &&& replies[0] is Resolved
            &&& selection::finds_directory(replies[1])
        },
        chosen_path(selected, replies) is Some ==> chosen_path(selected, replies)->0
            == replies[0]->Resolved_0@,
        record_status(selected, replies) is Succeeds ==> {
            &&& replies.len() >= 2
            &&& replies[0] is Resolved
            &&& record_status(selected, replies)->Succeeds_0 == replies[0]->Resolved_0@
        },
{
    selection::selection_is_decided(selected, Place::Selection, replies, 0);
}

/// Launches of two absolute paths that get the same replies go the same way.
pub proof fn absolute_launches_go_alike(
    selected: Seq<u8>,
    other: Seq<u8>,
    last_used_ms: u64,
    replies: Seq<Reply>,
)
    requires
        selected.len() > 0 && selected[0] == 47,
        other.len() > 0 && other[0] == 47,
    ensures
        record_status(selected, replies) == record_status(other, replies),
        chosen_path(selected, replies) == chosen_path(other, replies),
        read_from(selected, replies) == read_from(other, replies),
        recorded_list(selected, last_used_ms, replies) == recorded_list(
            other,
            last_used_ms,
            replies,
        ),
        stored_list(selected, last_used_ms, replies) == stored_list(other, last_used_ms, replies),
{
}

/// A recording is refused as its selection is; it stops where the lock cannot be had, with that
/// error; it changes the registry after the last reply on the lock. Where the change fails, the
/// lock is given up and the recording fails with that error. Where it passes, the list is taken
/// over, the lock given up, and the recording succeeds.
pub proof fn recording_is_decided(selected: Seq<u8>, replies: Seq<Reply>)
    ensures
        ({
            let status = record_status(selected, replies);
            let chosen = selection::selection(selected, Place::Selection, replies, 0);
            let locked = locking::registry_locked(replies, 2);
            let read = reading::registry_read(replies, locked->Passes_1);
            let written = writing::registry_written(replies, read->Passes_1);
            let n = replies.len();
            &&& chosen is Asks ==> status == Status::<Seq<u8>>::Asks(chosen->Asks_0)
            &&& chosen is Fails ==> status == Status::<Seq<u8>>::Fails(
                RegistryError::InvalidSelection(chosen->Fails_0),
            )
            &&& chosen is Passes && locked is Asks ==> status == Status::<Seq<u8>>::Asks(
                locked->Asks_0,
            )
            &&& chosen is Passes && locked is Fails ==> status == Status::<Seq<u8>>::Fails(
                locked->Fails_0,
            )
            &&& chosen is Passes && locked is Passes ==> {
                &&& read_from(selected, replies) == Some(locked->Passes_1)
                &&& read is Asks ==> status == Status::<Seq<u8>>::Asks(read->Asks_0)
                &&& read is Fails && n <= read->Fails_1 ==> status == Status::<Seq<u8>>::Asks(
                    Action::ReleaseLock,
                )
                &&& read is Fails && n > read->Fails_1 ==> status == Status::<Seq<u8>>::Fails(
                    read->Fails_0,
                )
                &&& read is Passes && written is Asks ==> status == Status::<Seq<u8>>::Asks(
                    written->Asks_0,
                )
                &&& read is Passes && written is Fails && n <= written->Fails_1 ==> status
                    == Status::<Seq<u8>>::Asks(Action::ReleaseLock)
                &&& read is Passes && written is Fails && n > written->Fails_1 ==> status
                    == Status::<Seq<u8>>::Fails(written->Fails_0)
                &&& read is Passes && written is Passes && n <= written->Passes_1 ==> status
                    == Status::<Seq<u8>>::Asks(Action::Adopt)
                &&& read is Passes && written is Passes && n == written->Passes_1 + 1 ==> status
                    == Status::<Seq<u8>>::Asks(Action::ReleaseLock)
                &&& read is Passes && written is Passes && n > written->Passes_1 + 1 ==> status
                    == Status::Succeeds(replies[0]->Resolved_0@)
            }
            &&& !(chosen is Passes && locked is Passes) ==> read_from(selected, replies) is None
        }),
{
    selection::selection_is_decided(selected, Place::Selection, replies, 0);
}

/// The two lists of a recording are there once the registry has been read under the lock.
pub proof fn lists_are_there_after_reading(
    selected: Seq<u8>,
    last_used_ms: u64,
    replies: Seq<Reply>,
)
    ensures
        recorded_list(selected, last_used_ms, replies) is Some <==> {
            &&& read_from(selected, replies) is Some
            &&& reading::registry_read(replies, read_from(selected, replies)->0) is Passes
        },
        stored_list(selected, last_used_ms, replies) is Some <==> {
            &&& read_from(selected, replies) is Some
            &&& reading::registry_read(replies, read_from(selected, replies)->0) is Passes
        },
{
}

/// The temporary file is named by the last reply that said what makes its name unique, and stands
/// beside the registry.
pub proof fn temporary_is_named_by_its_reply(
    location: Seq<u8>,
    replies: Seq<Reply>,
    k: int,
    process: u32,
    sequence: u64,
)
    requires
        0 <= k < replies.len(),
        replies[k] == Reply::Unique(process, sequence),
        forall|i: int| k < i < replies.len() ==> !(#[trigger] replies[i] is Unique),
    ensures
        temporary_of(location, replies) == Some(
            paths::renamed(location, names::temporary_name(process, sequence)),
        ),
    decreases replies.len(),
{
    if k < replies.len() - 1 {
        let shorter = replies.drop_last();
        assert(shorter[k] == replies[k]);
        assert forall|i: int| k < i < shorter.len() implies !(#[trigger] shorter[i] is Unique) by {
            assert(shorter[i] == replies[i]);
        }
        assert(!(replies[replies.len() - 1] is Unique));
        temporary_is_named_by_its_reply(location, shorter, k, process, sequence);
    }
}

/// Without such a reply the temporary file has no name.
pub proof fn temporary_has_no_name_before(location: Seq<u8>, replies: Seq<Reply>)
    requires
        forall|i: int| 0 <= i < replies.len() ==> !(#[trigger] replies[i] is Unique),
    ensures
        temporary_of(location, replies) is None,
    decreases replies.len(),
{
    if replies.len() > 0 {
        let shorter = replies.drop_last();
        assert forall|i: int| 0 <= i < shorter.len() implies !(#[trigger] shorter[i] is Unique) by {
            assert(shorter[i] == replies[i]);
        }
        assert(!(replies[replies.len() - 1] is Unique));
        temporary_has_no_name_before(location, shorter);
    }
}

/// What a recording says of itself is that of its selection, its time and its replies.
pub proof fn recording_status_is_of_its_replies(recording: Recording)
    ensures
        recording.status() == record_status(recording.selected(), recording.replies()),
        recording.recorded() == recorded_list(
            recording.selected(),
            recording.used_at(),
            recording.replies(),
        ),
        recording.stored() == stored_list(
            recording.selected(),
            recording.used_at(),
            recording.replies(),
        ),
{
}

} // verus!
