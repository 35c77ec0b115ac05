//! The registry of remembered workspaces, and the procedure that loads it.

use vstd::pervasive::unreached;
use vstd::prelude::*;

use crate::directory;
use crate::directory::{DirectoryStage, DirectoryStep};
use crate::names;
use crate::paths;
use crate::protocol::{Action, Place, RegistryError, Reply, Status, Verdict, WorkspaceRecord};
use crate::reading;
use crate::reading::{Reading, ReadingStep};
use crate::records;
use crate::records::RecordView;

verus! {

/// The registry of remembered workspaces.
#[derive(Debug)]
pub struct WorkspaceRegistry {
    path: Vec<u8>,
    records: Vec<WorkspaceRecord>,
}

impl WorkspaceRegistry {
    /// The path of the registry file.
    pub closed spec fn location(&self) -> Seq<u8> {
        self.path@
    }

    /// The remembered workspaces.
    pub closed spec fn listed(&self) -> Seq<RecordView> {
        records::record_views(self.records@)
    }

    #[verifier::type_invariant]
    spec fn consistent(self) -> bool {
        &&& paths::parent_path(self.path@) is Some
        &&& records::is_newest_first(records::record_views(self.records@))
        &&& records::distinct_paths(records::record_views(self.records@))
        &&& records::absolute_paths(records::record_views(self.records@))
    }

    /// The path of the registry file. It always has a parent.
    pub fn path(&self) -> (path: &Vec<u8>)
        ensures
            path@ == self.location(),
            paths::parent_path(self.location()) is Some,
    {
        proof {
            use_type_invariant(self);
        }
        &self.path
    }

    /// The remembered workspaces, newest first. Each path is absolute and listed once.
    pub fn list(&self) -> (list: Vec<WorkspaceRecord>)
        ensures
            records::record_views(list@) == self.listed(),
            records::is_newest_first(self.listed()),
            records::distinct_paths(self.listed()),
            records::absolute_paths(self.listed()),
            list@.len() == self.listed().len(),
            forall|i: int|
                0 <= i < list@.len() ==> {
                    &&& (#[trigger] list@[i]).path@ == self.listed()[i].path
                    &&& paths::absolute(list@[i].path@)
                    &&& list@[i].last_used_ms == self.listed()[i].last_used_ms
                },
            forall|i: int, j: int|
                0 <= i < j < list@.len() ==> {
                    ||| (#[trigger] list@[i]).last_used_ms > (#[trigger] list@[j]).last_used_ms
                    ||| list@[i].last_used_ms == list@[j].last_used_ms && paths::path_before(
                        list@[i].path@,
                        list@[j].path@,
                    )
                },
    {
        proof {
            use_type_invariant(self);
        }
        let list = records::copy_records(&self.records);
        proof {
            let views = records::record_views(list@);
            assert forall|i: int| 0 <= i < list@.len() implies {
                &&& (#[trigger] list@[i]).path@ == views[i].path
                &&& paths::absolute(list@[i].path@)
                &&& list@[i].last_used_ms == views[i].last_used_ms
            } by {
                records::views_are_faithful(list@[i], list@, i);
                assert(paths::absolute(views[i].path));
            }
            assert forall|i: int, j: int| 0 <= i < j < list@.len() implies {
                ||| (#[trigger] list@[i]).last_used_ms > (#[trigger] list@[j]).last_used_ms
                ||| list@[i].last_used_ms == list@[j].last_used_ms && paths::path_before(
                    list@[i].path@,
                    list@[j].path@,
                )
            } by {
                records::newest_first_lists_by_time_then_path(views, i, j);
            }
        }
        list
    }

    /// Puts another list in the place of the remembered one.
    pub(crate) fn replace_records(&mut self, list: Vec<WorkspaceRecord>)
        requires
            records::is_newest_first(records::record_views(list@)),
            records::distinct_paths(records::record_views(list@)),
            records::absolute_paths(records::record_views(list@)),
        ensures
            final(self).location() == old(self).location(),
            final(self).listed() == records::record_views(list@),
    {
        proof {
            use_type_invariant(&*self);
        }
        self.records = list;
    }
}

/// Where the loading of the registry at `path` stands after `replies`: first the directory is
/// made sure of, then the registry file is read.
pub open spec fn load_status(path: Seq<u8>, replies: Seq<Reply>) -> Status<Seq<RecordView>> {
    if paths::parent_path(path) is None {
        Status::Fails(RegistryError::NoParent)
    } else {
        match directory::private_directory(replies, 0) {
            Verdict::Asks(action) => Status::Asks(action),
            Verdict::Fails(error, _) => Status::Fails(error),
            Verdict::Passes(_, used) => match reading::registry_read(replies, used) {
                Verdict::Asks(action) => Status::Asks(action),
                Verdict::Fails(error, _) => Status::Fails(error),
                Verdict::Passes(list, _) => Status::Succeeds(list),
            },
        }
    }
}

enum LoadingStage {
    Directory(DirectoryStage),
    Registry(Reading),
    Ended(Result<Vec<WorkspaceRecord>, RegistryError>),
}

/// The loading of a registry.
pub struct Loading {
    path: Vec<u8>,
    directory: Option<Vec<u8>>,
    stage: LoadingStage,
    replies: Ghost<Seq<Reply>>,
}

impl Loading {
    /// The path of the registry file.
    pub closed spec fn location(&self) -> Seq<u8> {
        self.path@
    }

    /// The replies so far.
    pub closed spec fn replies(&self) -> Seq<Reply> {
        self.replies@
    }

    /// Where the loading stands.
    pub open spec fn status(&self) -> Status<Seq<RecordView>> {
        load_status(self.location(), self.replies())
    }

    /// The index of the first reply on the registry file.
    pub open spec fn read_from(&self) -> int {
        directory::private_directory(self.replies(), 0)->Passes_1
    }

    #[verifier::type_invariant]
    spec fn consistent(self) -> bool {
        &&& names::optional_view(self.directory) == paths::parent_path(self.path@)
        &&& !(self.stage is Ended) ==> paths::parent_path(self.path@) is Some
        &&& match self.stage {
            LoadingStage::Directory(stage) => stage.reached(self.replies@, 0),
            LoadingStage::Registry(reading) => {
                &&& directory::private_directory(self.replies@, 0) is Passes
                &&& reading.reached(
                    self.replies@,
                    directory::private_directory(self.replies@, 0)->Passes_1,
                )
            },
            LoadingStage::Ended(Ok(list)) => {
                &&& self.status() == Status::Succeeds(records::record_views(list@))
                &&& records::is_newest_first(records::record_views(list@))
                &&& records::distinct_paths(records::record_views(list@))
                &&& records::absolute_paths(records::record_views(list@))
            },
            LoadingStage::Ended(Err(error)) => self.status() == Status::<Seq<RecordView>>::Fails(
                error,
            ),
        }
    }

    /// The action that the loading waits for, until it has ended.
    pub fn next(&self) -> (action: Option<Action>)
        ensures
            match self.status() {
                Status::Asks(asked) => action == Some(asked),
                _ => action is None,
            },
    {
        proof {
            use_type_invariant(self);
        }
        match &self.stage {
            LoadingStage::Directory(stage) => Some(stage.pending()),
            LoadingStage::Registry(reading) => {
                proof {
                    reading.reached_asks(self.replies@, self.read_from());
                }
                Some(reading.pending())
            },
            LoadingStage::Ended(_) => None,
        }
    }

    /// The path at a place that the loading deals with. The path of an entry is there while it is
    /// to be resolved, and a canonical path while it is to be inspected.
    pub fn path_of(&self, place: Place) -> (path: Option<&Vec<u8>>)
        ensures
            match place {
                Place::Registry => path is Some && path->0@ == self.location(),
                Place::Directory => match paths::parent_path(self.location()) {
                    Some(directory) => path is Some && path->0@ == directory,
                    None => path is None,
                },
                Place::Entry(index) => if self.status() == Status::<Seq<RecordView>>::Asks(
                    Action::Resolve(place),
                ) {
                    &&& path is Some
                    &&& *path->0 == self.replies()[self.read_from()
                        + 2]->Document_0.workspaces@[index as int].path
                } else {
                    path is None
                },
                Place::Resolved => if self.status() == Status::<Seq<RecordView>>::Asks(
                    Action::Inspect(place),
                ) {
                    path is Some && self.replies().last() == Reply::Resolved(*path->0)
                } else {
                    path is None
                },
                _ => path is None,
            },
    {
        proof {
            use_type_invariant(self);
            if let LoadingStage::Registry(reading) = &self.stage {
                reading.reached_asks(self.replies@, self.read_from());
                reading.reached_paths(self.replies@, self.read_from());
            }
        }
        match (place, &self.stage) {
            (Place::Registry, _) => Some(&self.path),
            (Place::Directory, _) => self.directory.as_ref(),
            (Place::Entry(index), LoadingStage::Registry(reading)) => reading.entry(index),
            (Place::Resolved, LoadingStage::Registry(reading)) => reading.resolved(),
            _ => None,
        }
    }

    /// Takes the reply to the pending action.
    pub fn resume(self, reply: Reply) -> (next: Self)
        requires
            self.status() is Asks,
            self.status()->Asks_0.answered_by(reply),
        ensures
            next.location() == self.location(),
            next.replies() == self.replies().push(reply),
    {
        proof {
            use_type_invariant(&self);
        }
        let ghost before = self.replies@;
        let ghost now = self.replies@.push(reply);
        let Loading { path, directory, stage, replies: _ } = self;
        let stage = match stage {
            LoadingStage::Directory(stage) => match stage.resume(reply, Ghost(before), Ghost(0)) {
                DirectoryStep::Asks(stage) => LoadingStage::Directory(stage),
                DirectoryStep::Passes => LoadingStage::Registry(Reading::start(Ghost(now))),
                DirectoryStep::Fails(error) => LoadingStage::Ended(Err(error)),
            },
            LoadingStage::Registry(reading) => {
                let ghost at = directory::private_directory(before, 0)->Passes_1;
                proof {
                    directory::directory_verdict_stands(before, reply, 0);
                    reading.reached_asks(before, at);
                }
                match reading.resume(reply, Ghost(before), Ghost(at)) {
                    ReadingStep::Asks(reading) => LoadingStage::Registry(reading),
                    ReadingStep::Passes(list, _) => {
                        proof {
                            reading::read_records_are_sound(now, at);
                        }
                        LoadingStage::Ended(Ok(list))
                    },
                    ReadingStep::Fails(error) => LoadingStage::Ended(Err(error)),
                }
            },
            LoadingStage::Ended(_) => unreached(),
        };
        Loading { path, directory, stage, replies: Ghost(now) }
    }

    /// The registry, or why it could not be loaded.
    pub fn finish(self) -> (result: Result<WorkspaceRegistry, RegistryError>)
        requires
            !(self.status() is Asks),
        ensures
            match self.status() {
                Status::Asks(_) => false,
                Status::Succeeds(list) => {
                    &&& result is Ok
                    &&& result->Ok_0.location() == self.location()
                    &&& result->Ok_0.listed() == list
                },
                Status::Fails(error) => result == Err::<WorkspaceRegistry, RegistryError>(error),
            },
    {
        proof {
            use_type_invariant(&self);
            if let LoadingStage::Registry(reading) = &self.stage {
                reading.reached_asks(self.replies@, self.read_from());
            }
        }
        match self.stage {
            LoadingStage::Ended(Ok(records)) => Ok(WorkspaceRegistry { path: self.path, records }),
            LoadingStage::Ended(Err(error)) => Err(error),
            _ => unreached(),
        }
    }
}

impl WorkspaceRegistry {
    /// Starts to load the registry at `path`.
    pub fn load(path: Vec<u8>) -> (loading: Loading)
        ensures
            loading.location() == path@,
            loading.replies() == Seq::<Reply>::empty(),
    {
        let directory = paths::parent(path.as_slice());
        let stage = match &directory {
            Some(_) => LoadingStage::Directory(DirectoryStage::Look),
            None => LoadingStage::Ended(Err(RegistryError::NoParent)),
        };
        Loading { path, directory, stage, replies: Ghost(Seq::empty()) }
    }

    /// Starts to load the registry at its default path, given the values of `XDG_STATE_HOME` and
    /// `HOME`.
    pub fn load_default(state_home: Option<Vec<u8>>, home: Option<Vec<u8>>) -> (result: Result<
        Loading,
        RegistryError,
    >)
        ensures
            match names::default_path(
                names::optional_view(state_home),
                names::optional_view(home),
            ) {
                Some(path) => {
                    &&& result is Ok
                    &&& result->Ok_0.location() == path
                    &&& result->Ok_0.replies() == Seq::<Reply>::empty()
                },
                None => result == Err::<Loading, RegistryError>(RegistryError::HomeNotSet),
            },
    {
        match names::default_workspaces_path(state_home, home) {
            Ok(path) => Ok(Self::load(path)),
            Err(error) => Err(error),
        }
    }
}

/// A load needs a parent directory; it goes on from the check of the directory to the reading of
/// the file, and ends as the first of them that does not pass, or with the list that was read.
pub proof fn load_is_decided(path: Seq<u8>, replies: Seq<Reply>)
    ensures
        ({
            let status = load_status(path, replies);
            let placed = paths::parent_path(path) is Some;
            let checked = directory::private_directory(replies, 0);
            let read = reading::registry_read(replies, checked->Passes_1);
            &&& status == Status::<Seq<RecordView>>::Fails(RegistryError::NoParent) <== !placed
            &&& placed && checked is Asks ==> status == Status::<Seq<RecordView>>::Asks(
                checked->Asks_0,
            )
            &&& placed && checked is Fails ==> status == Status::<Seq<RecordView>>::Fails(
                checked->Fails_0,
            )
            &&& placed && checked is Passes && read is Asks ==> status == Status::<
                Seq<RecordView>,
            >::Asks(read->Asks_0)
            &&& placed && checked is Passes && read is Fails ==> status == Status::<
                Seq<RecordView>,
            >::Fails(read->Fails_0)
            &&& placed && checked is Passes && read is Passes ==> status == Status::Succeeds(
                read->Passes_0,
            )
        }),
{
}

/// Loads of two registries that have a parent and get the same replies go the same way.
pub proof fn loads_go_alike(path: Seq<u8>, other: Seq<u8>, replies: Seq<Reply>)
    requires
        paths::parent_path(path) is Some,
        paths::parent_path(other) is Some,
    ensures
        load_status(path, replies) == load_status(other, replies),
{
}

/// A load in a real directory of the user with mode 0700, with no registry file yet, ends with an
/// empty list.
pub proof fn fresh_registry_loads_empty(path: Seq<u8>, replies: Seq<Reply>)
    requires
        paths::parent_path(path) is Some,
        replies.len() >= 4,
        replies[0] is Facts,
        !replies[0]->Facts_0.symlink,
        replies[1] == Reply::Existence(true),
        replies[2] is Facts,
        replies[2]->Facts_0.directory,
        !replies[2]->Facts_0.symlink,
        replies[2]->Facts_0.access is Some ==> {
            let access = replies[2]->Facts_0.access->0;
            access.owner == access.user && access.mode & 0o777 == 0o700
        },
        replies[3] is Failed,
        replies[3]->Failed_0.not_found,
    ensures
        load_status(path, replies) == Status::Succeeds(Seq::<RecordView>::empty()),
{
    directory::private_directory_passes(replies, 0);
}

/// The status of a load is that of its path and its replies.
pub proof fn load_status_is_of_its_replies(loading: Loading)
    ensures
        loading.status() == load_status(loading.location(), loading.replies()),
        loading.read_from() == directory::private_directory(loading.replies(), 0)->Passes_1,
{
}

} // verus!
