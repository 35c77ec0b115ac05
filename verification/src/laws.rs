//! What holds of whole runs: of every sequence of replies that a load or a recording can get.
//!
//! After `replies`, a run has asked, for each `k` below their number, what its status asks after
//! `replies.take(k)`, and `replies[k]` was the answer.

use vstd::prelude::*;

use crate::checks;
use crate::directory;
use crate::locking;
use crate::paths;
use crate::protocol::{
    Action, Place, RegistryError, Reply, Status, Verdict, WorkspaceRecord, FILE_MODE,
};
use crate::reading;
use crate::recording;
use crate::records;
use crate::records::{RecordView, REGISTRY_VERSION};
use crate::registry;
use crate::selection;
use crate::writing;

verus! {

proof fn directory_stands(replies: Seq<Reply>, k: int, at: int)
    requires
        0 <= at,
        0 <= k <= replies.len(),
        !(directory::private_directory(replies.take(k), at) is Asks),
    ensures
        directory::private_directory(replies, at) == directory::private_directory(
            replies.take(k),
            at,
        ),
    decreases replies.len() - k,
{
    if k == replies.len() {
        assert(replies.take(k) =~= replies);
    } else {
        assert(replies.take(k + 1) =~= replies.take(k).push(replies[k]));
        directory::directory_verdict_stands(replies.take(k), replies[k], at);
        directory_stands(replies, k + 1, at);
    }
}

proof fn lock_stands(replies: Seq<Reply>, k: int, at: int)
    requires
        0 <= at,
        0 <= k <= replies.len(),
        !(locking::registry_locked(replies.take(k), at) is Asks),
    ensures
        locking::registry_locked(replies, at) == locking::registry_locked(replies.take(k), at),
    decreases replies.len() - k,
{
    if k == replies.len() {
        assert(replies.take(k) =~= replies);
    } else {
        assert(replies.take(k + 1) =~= replies.take(k).push(replies[k]));
        locking::lock_verdict_stands(replies.take(k), replies[k], at);
        lock_stands(replies, k + 1, at);
    }
}

proof fn read_stands(replies: Seq<Reply>, k: int, at: int)
    requires
        0 <= at,
        0 <= k <= replies.len(),
        !(reading::registry_read(replies.take(k), at) is Asks),
    ensures
        reading::registry_read(replies, at) == reading::registry_read(replies.take(k), at),
        reading::registry_read(replies, at) is Passes ==> reading::set_aside(replies, at)
            == reading::set_aside(replies.take(k), at),
    decreases replies.len() - k,
{
    if k == replies.len() {
        assert(replies.take(k) =~= replies);
    } else {
        assert(replies.take(k + 1) =~= replies.take(k).push(replies[k]));
        reading::read_verdict_stands(replies.take(k), replies[k], at);
        read_stands(replies, k + 1, at);
    }
}

proof fn write_stands(replies: Seq<Reply>, k: int, at: int)
    requires
        0 <= at,
        0 <= k <= replies.len(),
        !(writing::registry_written(replies.take(k), at) is Asks),
    ensures
        writing::registry_written(replies, at) == writing::registry_written(
            replies.take(k),
            at,
        ),
    decreases replies.len() - k,
{
    if k == replies.len() {
        assert(replies.take(k) =~= replies);
    } else {
        assert(replies.take(k + 1) =~= replies.take(k).push(replies[k]));
        writing::write_verdict_stands(replies.take(k), replies[k], at);
        write_stands(replies, k + 1, at);
    }
}

/// The actions of the reading.
pub open spec fn reads(action: Action) -> bool {
    action is Inspect || action is ReadRegistry || action is Resolve
}

/// The actions of the writing.
pub open spec fn writes(action: Action) -> bool {
    match action {
        Action::Inspect(_) => true,
        Action::TestDirectory => true,
        Action::CreateDirectory => true,
        Action::SetDirectoryMode(_) => true,
        Action::NameTemporary => true,
        Action::CreateTemporary(_) => true,
        Action::WriteDocument => true,
        Action::WriteLineEnd => true,
        Action::SyncTemporary => true,
        Action::ReplaceRegistry => true,
        Action::SyncDirectory => true,
        Action::RemoveTemporary => true,
        _ => false,
    }
}

/// The number of entries of the document that was read, and none where none was.
pub open spec fn entry_count(replies: Seq<Reply>, at: int) -> nat {
    if replies.len() > at + 2 && replies[at + 2] is Document {
        replies[at + 2]->Document_0.workspaces@.len()
    } else {
        0
    }
}

proof fn read_asks(replies: Seq<Reply>, at: int)
    requires
        0 <= at,
        reading::registry_read(replies, at) is Asks,
    ensures
        reads(reading::registry_read(replies, at)->Asks_0),
        replies.len() < at + 3 + 2 * entry_count(replies, at),
{
    if replies.len() > at + 2 && replies[at + 2] is Document {
        let workspaces = replies[at + 2]->Document_0.workspaces@;
        reading::entries_use(workspaces, workspaces.len() as int, replies, at + 3);
    }
}

proof fn read_uses(replies: Seq<Reply>, at: int)
    requires
        0 <= at,
        !(reading::registry_read(replies, at) is Asks),
    ensures
        match reading::registry_read(replies, at) {
            Verdict::Asks(_) => true,
            Verdict::Passes(_, used) => at < used <= at + 3 + 2 * entry_count(replies, at) && used
                <= replies.len(),
            Verdict::Fails(_, used) => at < used <= at + 3 + 2 * entry_count(replies, at) && used
                <= replies.len(),
        },
{
    reading::read_verdict_stands(replies, Reply::Done, at);
    if replies.len() > at + 2 && replies[at + 2] is Document {
        let workspaces = replies[at + 2]->Document_0.workspaces@;
        reading::entries_use(workspaces, workspaces.len() as int, replies, at + 3);
    }
}

proof fn publication_asks(replies: Seq<Reply>, at: int)
    requires
        0 <= at <= replies.len(),
    ensures
        match writing::published(replies, at, 0) {
            Verdict::Asks(action) => {
                &&& writes(action)
                &&& replies.len() < at + 7
                &&& forall|j: int|
                    0 <= j < 6 && action == #[trigger] writing::publication_action(j) ==> {
                        &&& replies.len() == at + j
                        &&& forall|i: int| 0 <= i < j ==> !(#[trigger] replies[at + i] is Failed)
                    }
                &&& action is RemoveTemporary ==> replies.len() > at && replies.last() is Failed
            },
            Verdict::Passes(_, used) => {
                &&& used == at + 6 <= replies.len()
                &&& forall|i: int| 0 <= i < 6 ==> !(#[trigger] replies[at + i] is Failed)
            },
            Verdict::Fails(_, used) => {
                &&& at + 2 <= used <= at + 7
                &&& used <= replies.len()
                &&& replies[used - 2] is Failed
                &&& forall|i: int|
                    0 <= i < used - 2 - at ==> !(#[trigger] replies[at + i] is Failed)
            },
        },
{
    reveal_with_fuel(writing::published, 8);
}

proof fn write_asks(replies: Seq<Reply>, at: int)
    requires
        0 <= at,
    ensures
        match writing::registry_written(replies, at) {
            Verdict::Asks(action) => writes(action) && replies.len() < at + 14,
            Verdict::Passes(_, used) => at < used <= replies.len() && used <= at + 14,
            Verdict::Fails(_, used) => at < used <= replies.len() && used <= at + 14,
        },
{
    if let Verdict::Passes(_, used) = directory::private_directory(replies, at) {
        directory::directory_verdict_stands(replies, Reply::Done, at);
        assert(used <= at + 5);
        if replies.len() > used + 1 {
            publication_asks(replies, used + 2);
        }
    }
}

/// A load waits for a bounded number of replies: so it ends, whatever is replied.
pub proof fn loading_ends(path: Seq<u8>, replies: Seq<Reply>)
    requires
        registry::load_status(path, replies) is Asks,
    ensures
        replies.len() < 8 + 2 * entry_count(
            replies,
            directory::private_directory(replies, 0)->Passes_1,
        ),
{
    if let Verdict::Passes(_, used) = directory::private_directory(replies, 0) {
        directory::directory_verdict_stands(replies, Reply::Done, 0);
        read_asks(replies, used);
    }
}

/// A recording waits for a bounded number of replies: so it ends, whatever is replied.
pub proof fn recording_ends(selected: Seq<u8>, replies: Seq<Reply>)
    requires
        recording::record_status(selected, replies) is Asks,
    ensures
        match recording::read_from(selected, replies) {
            Some(at) => replies.len() < 25 + 2 * entry_count(replies, at),
            None => replies.len() < 6,
        },
{
    if let Some(at) = recording::read_from(selected, replies) {
        locking::lock_verdict_stands(replies, Reply::Done, 2);
        assert(at <= 6);
        let read = reading::registry_read(replies, at);
        if read is Asks {
            read_asks(replies, at);
        } else {
            read_uses(replies, at);
            if read is Passes {
                write_asks(replies, read->Passes_1);
            }
        }
    }
}

/// What a load lists is in order, newest first, lists no path twice, and lists absolute paths only.
pub proof fn loaded_list_is_ordered(path: Seq<u8>, replies: Seq<Reply>)
    requires
        registry::load_status(path, replies) is Succeeds,
    ensures
        records::is_newest_first(registry::load_status(path, replies)->Succeeds_0),
        records::distinct_paths(registry::load_status(path, replies)->Succeeds_0),
        records::absolute_paths(registry::load_status(path, replies)->Succeeds_0),
{
    let used = directory::private_directory(replies, 0)->Passes_1;
    directory::directory_verdict_stands(replies, Reply::Done, 0);
    reading::read_records_are_sound(replies, used);
}

/// A registry file that does not exist is an empty registry.
pub proof fn missing_registry_is_empty(path: Seq<u8>, replies: Seq<Reply>)
    requires
        paths::parent_path(path) is Some,
        directory::private_directory(replies, 0) is Passes,
        ({
            let used = directory::private_directory(replies, 0)->Passes_1;
            replies.len() > used && replies[used] is Failed
                && replies[used]->Failed_0.not_found
        }),
    ensures
        registry::load_status(path, replies) == Status::Succeeds(Seq::<RecordView>::empty()),
{
}

/// A load changes nothing but the directory of the registry, which it may create: what it asks for
/// is to look, to read, and to make that directory.
pub proof fn load_changes_only_directory(path: Seq<u8>, replies: Seq<Reply>)
    requires
        registry::load_status(path, replies) is Asks,
    ensures
        ({
            let action = registry::load_status(path, replies)->Asks_0;
            ||| action is Inspect
            ||| action is TestDirectory
            ||| action is CreateDirectory
            ||| action is SetDirectoryMode
            ||| action is ReadRegistry
            ||| action is Resolve
        }),
        forall|place: Place| #[trigger]
            registry::load_status(path, replies)->Asks_0.changes(place) ==> place is Directory,
{
    if let Verdict::Passes(_, used) = directory::private_directory(replies, 0) {
        directory::directory_verdict_stands(replies, Reply::Done, 0);
        read_asks(replies, used);
    }
}

/// The reply has the facts of a regular file that belongs to the user with mode 0600.
pub open spec fn private_file(reply: Reply) -> bool {
    &&& reply is Facts
    &&& reply->Facts_0.regular
    &&& !reply->Facts_0.symlink
    &&& reply->Facts_0.access is Some ==> {
        &&& reply->Facts_0.access->0.owner == reply->Facts_0.access->0.user
        &&& reply->Facts_0.access->0.mode & 0o777 == 0o600
    }
}

/// The reply has the facts of a real directory that belongs to the user with mode 0700.
pub open spec fn private_state_directory(reply: Reply) -> bool {
    &&& reply is Facts
    &&& reply->Facts_0.directory
    &&& !reply->Facts_0.symlink
    &&& reply->Facts_0.access is Some ==> {
        &&& reply->Facts_0.access->0.owner == reply->Facts_0.access->0.user
        &&& reply->Facts_0.access->0.mode & 0o777 == 0o700
    }
}

/// A load reads the registry file only after the directory has been found to be real and private,
/// and the file to be regular and private.
pub proof fn only_private_state_is_read(path: Seq<u8>, replies: Seq<Reply>)
    requires
        registry::load_status(path, replies) == Status::<Seq<RecordView>>::Asks(
            Action::ReadRegistry,
        ),
    ensures
        replies.len() >= 3,
        private_file(replies.last()),
        private_state_directory(replies[replies.len() - 3]),
{
    let used = directory::private_directory(replies, 0)->Passes_1;
    if directory::private_directory(replies, 0) is Passes {
        directory::directory_verdict_stands(replies, Reply::Done, 0);
        if replies.len() > used + 2 {
            let workspaces = replies[used + 2]->Document_0.workspaces@;
            reading::entries_use(workspaces, workspaces.len() as int, replies, used + 3);
        }
    }
}

/// Where a recording has come past the lock, it stays there, with the same lock.
proof fn lock_point_stands(selected: Seq<u8>, replies: Seq<Reply>, k: int)
    requires
        0 <= k <= replies.len(),
        recording::read_from(selected, replies.take(k)) is Some,
    ensures
        recording::read_from(selected, replies) == recording::read_from(selected, replies.take(k)),
        recording::chosen_path(selected, replies) == recording::chosen_path(
            selected,
            replies.take(k),
        ),
        recording::chosen_path(selected, replies) is Some,
        2 < recording::read_from(selected, replies)->0 <= k,
{
    lock_stands(replies, k, 2);
    locking::lock_verdict_stands(replies.take(k), Reply::Done, 2);
}

proof fn change_stands(replies: Seq<Reply>, k: int, at: int)
    requires
        0 <= at,
        0 <= k <= replies.len(),
        !(recording::registry_changed(replies.take(k), at) is Asks),
    ensures
        recording::registry_changed(replies, at) == recording::registry_changed(
            replies.take(k),
            at,
        ),
        match recording::registry_changed(replies, at) {
            Verdict::Asks(_) => true,
            Verdict::Passes(_, used) => at < used <= k,
            Verdict::Fails(_, used) => at < used <= k,
        },
{
    read_stands(replies, k, at);
    reading::read_verdict_stands(replies.take(k), Reply::Done, at);
    if let Verdict::Passes(_, used) = reading::registry_read(replies.take(k), at) {
        write_stands(replies, k, used);
        writing::write_verdict_stands(replies.take(k), Reply::Done, used);
    }
}

proof fn change_asks(replies: Seq<Reply>, at: int)
    requires
        0 <= at,
        recording::registry_changed(replies, at) is Asks,
    ensures
        reads(recording::registry_changed(replies, at)->Asks_0) || writes(
            recording::registry_changed(replies, at)->Asks_0,
        ),
{
    if reading::registry_read(replies, at) is Asks {
        read_asks(replies, at);
    } else {
        read_uses(replies, at);
        write_asks(replies, reading::registry_read(replies, at)->Passes_1);
    }
}

/// What a recording asks before it holds the lock. A canonical path is also inspected later.
pub open spec fn asked_before_lock(action: Action) -> bool {
    match action {
        Action::Resolve(place) => place is Selection,
        Action::Inspect(place) => place is Resolved || place is Lock,
        Action::OpenLock(_) => true,
        Action::TakeLock => true,
        _ => false,
    }
}

/// What a recording asks tells where it stands.
proof fn asked_where(selected: Seq<u8>, replies: Seq<Reply>)
    requires
        recording::record_status(selected, replies) is Asks,
    ensures
        ({
            let action = recording::record_status(selected, replies)->Asks_0;
            match recording::read_from(selected, replies) {
                None => asked_before_lock(action),
                Some(at) => {
                    &&& 2 < at <= replies.len()
                    &&& match recording::registry_changed(replies, at) {
                        Verdict::Asks(asked) => asked == action && (reads(action) || writes(
                            action,
                        )),
                        Verdict::Fails(_, used) => action is ReleaseLock && replies.len() <= used,
                        Verdict::Passes(_, used) => {
                            ||| action is Adopt && replies.len() <= used
                            ||| action is ReleaseLock && replies.len() == used + 1
                        },
                    }
                },
            }
        }),
{
    if let Some(at) = recording::read_from(selected, replies) {
        locking::lock_verdict_stands(replies, Reply::Done, 2);
        if recording::registry_changed(replies, at) is Asks {
            change_asks(replies, at);
        }
    }
}

/// A recording that fails never takes a list over into memory.
pub proof fn failed_recording_keeps_memory(selected: Seq<u8>, replies: Seq<Reply>, k: int)
    requires
        recording::record_status(selected, replies) is Fails,
        0 <= k <= replies.len(),
    ensures
        recording::record_status(selected, replies.take(k)) != Status::<Seq<u8>>::Asks(
            Action::Adopt,
        ),
{
    let earlier = replies.take(k);
    if recording::record_status(selected, earlier) == Status::<Seq<u8>>::Asks(Action::Adopt) {
        asked_where(selected, earlier);
        lock_point_stands(selected, replies, k);
        change_stands(replies, k, recording::read_from(selected, earlier)->0);
    }
}

/// A recording that fails has not replaced the registry, unless the replacement itself or the
/// flush of the directory right after it is what failed.
pub proof fn failed_recording_keeps_store(selected: Seq<u8>, replies: Seq<Reply>, k: int)
    requires
        recording::record_status(selected, replies) is Fails,
        0 <= k < replies.len(),
        recording::record_status(selected, replies.take(k)) == Status::<Seq<u8>>::Asks(
            Action::ReplaceRegistry,
        ),
    ensures
        replies[k] is Failed || {
            &&& k + 1 < replies.len()
            &&& recording::record_status(selected, replies.take(k + 1)) == Status::<Seq<u8>>::Asks(
                Action::SyncDirectory,
            )
            &&& replies[k + 1] is Failed
        },
{
    let start = publication_started(selected, replies, k, 4);
    if !(replies[k] is Failed) {
        publication_continues(selected, replies, k, start, 5);
        let at = recording::read_from(selected, replies)->0;
        let read = reading::registry_read(replies, at)->Passes_1;
        assert(writing::registry_written(replies, read) == writing::published(replies, start, 0));
        publication_asks(replies, start);
        if k + 1 < replies.len() && !(replies[k + 1] is Failed) {
            assert(writing::published(replies, start, 0) is Passes) by {
                let verdict = writing::published(replies, start, 0);
                if verdict is Fails {
                    let used = verdict->Fails_1;
                    assert(replies[start + (used - 2 - start)] is Failed);
                }
                if verdict is Asks {
                    reveal_with_fuel(writing::published, 8);
                }
            }
        }
        if k + 1 == replies.len() {
            assert(replies.take(k + 1) =~= replies);
        }
    }
}

/// Where the step at `j` of the publication is asked, it started at the index that is returned,
/// and the steps before have succeeded.
proof fn publication_started(selected: Seq<u8>, replies: Seq<Reply>, k: int, j: int) -> (start: int)
    requires
        0 <= k <= replies.len(),
        0 <= j < 6,
        recording::record_status(selected, replies.take(k)) == Status::<Seq<u8>>::Asks(
            writing::publication_action(j),
        ),
    ensures
        ({
            let at = recording::read_from(selected, replies);
            let read = reading::registry_read(replies, at->0);
            let checked = directory::private_directory(replies, read->Passes_1);
            &&& at is Some
            &&& recording::read_from(selected, replies.take(k)) == at
            &&& 2 < at->0
            &&& read is Passes
            &&& reading::registry_read(replies.take(k), at->0) == read
            &&& at->0 < read->Passes_1
            &&& checked is Passes
            &&& directory::private_directory(replies.take(k), read->Passes_1) == checked
            &&& start == checked->Passes_1 + 2
            &&& read->Passes_1 < checked->Passes_1
            &&& checks::unless_symlinked(Place::Registry, replies[start - 2].inspection()) is Ok
            &&& writing::registry_written(replies, read->Passes_1) == writing::published(
                replies,
                start,
                0,
            )
            &&& start + j == k
            &&& forall|i: int| 0 <= i < j ==> !(#[trigger] replies[start + i] is Failed)
        }),
{
    let earlier = replies.take(k);
    asked_where(selected, earlier);
    lock_point_stands(selected, replies, k);
    let at = recording::read_from(selected, earlier)->0;
    let read = reading::registry_read(earlier, at);
    if read is Asks {
        read_asks(earlier, at);
    }
    assert(read is Passes);
    read_stands(replies, k, at);
    read_uses(earlier, at);
    let used = read->Passes_1;
    let checked = directory::private_directory(earlier, used);
    assert(checked is Passes);
    directory_stands(replies, k, used);
    directory::directory_verdict_stands(earlier, Reply::Done, used);
    let start = checked->Passes_1 + 2;
    assert(earlier.len() >= start);
    publication_asks(earlier, start);
    assert(writing::published(earlier, start, 0) == Verdict::<(), RegistryError>::Asks(
        writing::publication_action(j),
    ));
    assert forall|i: int| 0 <= i < j implies !(#[trigger] replies[start + i] is Failed) by {
        assert(earlier[start + i] == replies[start + i]);
    }
    start
}

/// After a step that succeeded, the next one is asked.
proof fn publication_continues(
    selected: Seq<u8>,
    replies: Seq<Reply>,
    k: int,
    start: int,
    j: int,
)
    requires
        0 < j < 6,
        0 <= k < replies.len(),
        start + j == k + 1,
        recording::record_status(selected, replies.take(k)) == Status::<Seq<u8>>::Asks(
            writing::publication_action(j - 1),
        ),
        start == directory::private_directory(
            replies,
            reading::registry_read(
                replies,
                recording::read_from(selected, replies)->0,
            )->Passes_1,
        )->Passes_1 + 2,
        !(replies[k] is Failed),
    ensures
        recording::record_status(selected, replies.take(k + 1)) == Status::<Seq<u8>>::Asks(
            writing::publication_action(j),
        ),
{
    let again = publication_started(selected, replies, k, j - 1);
    assert(again == start);
    let earlier = replies.take(k);
    let later = replies.take(k + 1);
    assert(later =~= earlier.push(replies[k]));
    let at = recording::read_from(selected, replies)->0;
    let used = reading::registry_read(replies, at)->Passes_1;
    locking::lock_verdict_stands(earlier, replies[k], 2);
    reading::read_verdict_stands(earlier, replies[k], at);
    directory::directory_verdict_stands(earlier, replies[k], used);
    assert(later[start - 2] == replies[start - 2]);
    publication_prefix(replies, start, j);
}

/// The registry file changes in one step only. Where a recording asks for an action that changes
/// it, that is its replacement by the temporary file; and just before, that file has been created,
/// the whole document written to it, the line ended, and all of it flushed, each with success.
pub proof fn registry_is_replaced_whole(
    selected: Seq<u8>,
    last_used_ms: u64,
    replies: Seq<Reply>,
    k: int,
)
    requires
        0 <= k <= replies.len(),
        recording::record_status(selected, replies.take(k)) is Asks,
        recording::record_status(selected, replies.take(k))->Asks_0.changes(Place::Registry),
    ensures
        recording::record_status(selected, replies.take(k)) == Status::<Seq<u8>>::Asks(
            Action::ReplaceRegistry,
        ),
        k >= 4,
        recording::record_status(selected, replies.take(k - 4)) == Status::<Seq<u8>>::Asks(
            Action::CreateTemporary(FILE_MODE),
        ),
        recording::record_status(selected, replies.take(k - 3)) == Status::<Seq<u8>>::Asks(
            Action::WriteDocument,
        ),
        recording::stored_list(selected, last_used_ms, replies.take(k - 3)) is Some,
        recording::stored_list(selected, last_used_ms, replies.take(k - 3))
            == recording::stored_list(selected, last_used_ms, replies.take(k)),
        recording::record_status(selected, replies.take(k - 2)) == Status::<Seq<u8>>::Asks(
            Action::WriteLineEnd,
        ),
        recording::record_status(selected, replies.take(k - 1)) == Status::<Seq<u8>>::Asks(
            Action::SyncTemporary,
        ),
        !(replies[k - 4] is Failed),
        !(replies[k - 3] is Failed),
        !(replies[k - 2] is Failed),
        !(replies[k - 1] is Failed),
{
    let start = publication_started(selected, replies, k, 4);
    assert(!(replies[start + 0] is Failed));
    assert(!(replies[start + 1] is Failed));
    assert(!(replies[start + 2] is Failed));
    assert(!(replies[start + 3] is Failed));
    run_point(selected, replies, start);
    run_point(selected, replies, start + 1);
    run_point(selected, replies, start + 2);
    run_point(selected, replies, start + 3);
    publication_prefix(replies, start, 0);
    publication_prefix(replies, start, 1);
    publication_prefix(replies, start, 2);
    publication_prefix(replies, start, 3);
    let at = recording::read_from(selected, replies)->0;
    publication_started(selected, replies, k - 3, 1);
    lock_point_stands(selected, replies, k);
    lock_point_stands(selected, replies, k - 3);
    read_stands(replies, k, at);
    read_stands(replies, k - 3, at);
}

/// Where creating, writing or flushing the temporary file fails, the registry file is not changed,
/// now or later, and the recording fails with that failure.
pub proof fn failed_preparation_keeps_registry(
    selected: Seq<u8>,
    replies: Seq<Reply>,
    j: int,
    step: int,
)
    requires
        0 <= j < replies.len(),
        0 <= step < 4,
        recording::record_status(selected, replies.take(j)) == Status::<Seq<u8>>::Asks(
            writing::publication_action(step),
        ),
        replies[j] is Failed,
    ensures
        forall|k: int|
            0 <= k <= replies.len() && (#[trigger] recording::record_status(
                selected,
                replies.take(k),
            )) is Asks ==> !recording::record_status(selected, replies.take(k))->Asks_0.changes(
                Place::Registry,
            ),
        recording::record_status(selected, replies) is Asks || recording::record_status(
            selected,
            replies,
        ) == Status::<Seq<u8>>::Fails(RegistryError::Io(replies[j]->Failed_0)),
{
    let start = publication_started(selected, replies, j, step);
    assert forall|k: int|
        0 <= k <= replies.len() && (#[trigger] recording::record_status(
            selected,
            replies.take(k),
        )) is Asks implies !recording::record_status(selected, replies.take(k))->Asks_0.changes(
        Place::Registry,
    ) by {
        if recording::record_status(selected, replies.take(k))->Asks_0.changes(Place::Registry) {
            let again = publication_started(selected, replies, k, 4);
            assert(again == start);
            assert(!(replies[start + step] is Failed));
        }
    }
    publication_fails(replies, start, step);
    lock_point_stands(selected, replies, j);
}

/// A step that fails after steps that succeeded is the failure of the publication.
proof fn publication_fails(replies: Seq<Reply>, at: int, step: int)
    requires
        0 <= at,
        0 <= step < 6,
        replies.len() > at + step,
        replies[at + step] is Failed,
        forall|i: int| 0 <= i < step ==> !(#[trigger] replies[at + i] is Failed),
    ensures
        match writing::published(replies, at, 0) {
            Verdict::Asks(action) => action is RemoveTemporary,
            Verdict::Passes(_, _) => false,
            Verdict::Fails(error, _) => error == RegistryError::Io(replies[at + step]->Failed_0),
        },
{
    reveal_with_fuel(writing::published, 8);
    assert(step > 0 ==> !(replies[at + 0] is Failed));
    assert(step > 1 ==> !(replies[at + 1] is Failed));
    assert(step > 2 ==> !(replies[at + 2] is Failed));
    assert(step > 3 ==> !(replies[at + 3] is Failed));
    assert(step > 4 ==> !(replies[at + 4] is Failed));
}

/// A recording that fails after it has set out to create the temporary file removes that file.
pub proof fn temporary_is_removed(selected: Seq<u8>, replies: Seq<Reply>, k: int)
    requires
        recording::recording_run(selected, replies),
        recording::record_status(selected, replies) is Fails,
        0 <= k < replies.len(),
        recording::record_status(selected, replies.take(k)) == Status::<Seq<u8>>::Asks(
            Action::CreateTemporary(FILE_MODE),
        ),
    ensures
        exists|j: int|
            k < j < replies.len() && #[trigger] recording::record_status(selected, replies.take(j))
                == Status::<Seq<u8>>::Asks(Action::RemoveTemporary),
{
    let start = publication_started(selected, replies, k, 0);
    publication_asks(replies, start);
    let verdict = writing::published(replies, start, 0);
    assert(verdict is Fails);
    let j = verdict->Fails_1 - 1;
    assert(replies.len() > j);
    let later = replies.take(j);
    prefix_of_publication(selected, replies, k, start, j);
    assert(writing::published(later, start, 0) == Verdict::<(), RegistryError>::Asks(
        Action::RemoveTemporary,
    )) by {
        reveal_with_fuel(writing::published, 8);
        let n = j - 1 - start;
        assert(later[start + n] == replies[start + n]);
        assert forall|i: int| 0 <= i < n implies !(#[trigger] later[start + i] is Failed) by {
            assert(later[start + i] == replies[start + i]);
        }
        assert(n > 0 ==> !(later[start + 0] is Failed));
        assert(n > 1 ==> !(later[start + 1] is Failed));
        assert(n > 2 ==> !(later[start + 2] is Failed));
        assert(n > 3 ==> !(later[start + 3] is Failed));
        assert(n > 4 ==> !(later[start + 4] is Failed));
    }
    assert(recording::record_status(selected, later) == Status::<Seq<u8>>::Asks(
        Action::RemoveTemporary,
    ));
}

/// Between the start of the publication and its end, the status is that of the publication.
proof fn prefix_of_publication(
    selected: Seq<u8>,
    replies: Seq<Reply>,
    k: int,
    start: int,
    j: int,
)
    requires
        0 <= k <= j <= replies.len(),
        recording::record_status(selected, replies.take(k)) == Status::<Seq<u8>>::Asks(
            writing::publication_action(0),
        ),
        start == k,
    ensures
        ({
            let at = recording::read_from(selected, replies)->0;
            let later = replies.take(j);
            &&& recording::read_from(selected, later) == Some(at)
            &&& recording::registry_changed(later, at) == writing::published(later, start, 0)
            &&& recording::chosen_path(selected, later) is Some
        }),
{
    let later = replies.take(j);
    assert(later.take(k) =~= replies.take(k));
    publication_started(selected, replies, k, 0);
    publication_started(selected, later, k, 0);
    let at = recording::read_from(selected, replies)->0;
    lock_point_stands(selected, later, k);
    read_stands(later, k, at);
    let used = reading::registry_read(later, at)->Passes_1;
    directory_stands(later, k, used);
}

/// The registry is looked at, read, written and taken over only under the lock: when one of these
/// is asked, the lock has been taken and not been given up since.
pub proof fn changes_happen_under_lock(selected: Seq<u8>, replies: Seq<Reply>)
    requires
        recording::record_status(selected, replies) is Asks,
        ({
            let action = recording::record_status(selected, replies)->Asks_0;
            !asked_before_lock(action) && !(action is ReleaseLock)
        }),
    ensures
        exists|t: int|
            {
                &&& 0 <= t < replies.len()
                &&& #[trigger] recording::record_status(selected, replies.take(t)) == Status::<
                    Seq<u8>,
                >::Asks(Action::TakeLock)
                &&& !(replies[t] is Failed)
                &&& forall|j: int|
                    t < j <= replies.len() ==> #[trigger] recording::record_status(
                        selected,
                        replies.take(j),
                    ) != Status::<Seq<u8>>::Asks(Action::ReleaseLock)
            },
{
    asked_where(selected, replies);
    let at = recording::read_from(selected, replies)->0;
    let t = at - 1;
    lock_was_asked(selected, replies);
    assert forall|j: int| t < j <= replies.len() implies #[trigger] recording::record_status(
        selected,
        replies.take(j),
    ) != Status::<Seq<u8>>::Asks(Action::ReleaseLock) by {
        if recording::record_status(selected, replies.take(j)) == Status::<Seq<u8>>::Asks(
            Action::ReleaseLock,
        ) {
            asked_where(selected, replies.take(j));
            lock_point_stands(selected, replies, j);
            change_stands(replies, j, at);
        }
    }
}

/// Where the lock is held, taking it was asked just before.
proof fn lock_was_asked(selected: Seq<u8>, replies: Seq<Reply>)
    requires
        recording::read_from(selected, replies) is Some,
    ensures
        ({
            let t = recording::read_from(selected, replies)->0 - 1;
            &&& 0 <= t < replies.len()
            &&& recording::record_status(selected, replies.take(t)) == Status::<Seq<u8>>::Asks(
                Action::TakeLock,
            )
            &&& !(replies[t] is Failed)
        }),
{
    let t = recording::read_from(selected, replies)->0 - 1;
    locking::lock_verdict_stands(replies, Reply::Done, 2);
    assert(replies.take(t)[0] == replies[0]);
    assert(replies.take(t)[1] == replies[1]);
    assert(replies.take(t)[2] == replies[2]);
}

/// A recording that has taken the lock ends by giving it up, whether it succeeds or fails.
pub proof fn lock_is_given_up(selected: Seq<u8>, replies: Seq<Reply>, t: int)
    requires
        recording::recording_run(selected, replies),
        !(recording::record_status(selected, replies) is Asks),
        0 <= t < replies.len(),
        recording::record_status(selected, replies.take(t)) == Status::<Seq<u8>>::Asks(
            Action::TakeLock,
        ),
        !(replies[t] is Failed),
    ensures
        recording::record_status(selected, replies.take(replies.len() - 1)) == Status::<
            Seq<u8>,
        >::Asks(Action::ReleaseLock),
{
    let earlier = replies.take(t);
    let later = replies.take(t + 1);
    asked_where(selected, earlier);
    assert(later =~= earlier.push(replies[t]));
    assert(later[0] == earlier[0] && later[1] == earlier[1]);
    assert(earlier.len() > 2) by {
        if earlier.len() == 2 {
            assert(locking::registry_locked(earlier, 2) == Verdict::<(), RegistryError>::Asks(
                Action::Inspect(Place::Lock),
            ));
        }
    }
    assert(later[2] == earlier[2]);
    assert(recording::read_from(selected, later) == Some(t + 1));
    lock_point_stands(selected, replies, t + 1);
    let at = t + 1;
    let last = replies.take(replies.len() - 1);
    assert(recording::record_status(selected, last) is Asks);
    if replies.len() - 1 > t {
        assert(last.take(t + 1) =~= later);
        lock_point_stands(selected, last, t + 1);
        asked_where(selected, last);
        if recording::registry_changed(last, at) is Asks {
            assert(replies =~= last.push(replies[replies.len() - 1]));
            last_reply_asks(last, replies[replies.len() - 1], at);
        } else {
            change_stands(replies, replies.len() - 1, at);
        }
    } else {
        assert(replies =~= later);
        fresh_change_asks(replies, at);
    }
}

/// With no reply yet, the change asks for the first one.
proof fn fresh_change_asks(replies: Seq<Reply>, at: int)
    requires
        0 <= at,
        replies.len() <= at,
    ensures
        recording::registry_changed(replies, at) is Asks,
{
}

/// A change that has just been decided has used all the replies.
proof fn last_reply_asks(replies: Seq<Reply>, reply: Reply, at: int)
    requires
        0 <= at <= replies.len(),
        recording::registry_changed(replies, at) is Asks,
    ensures
        match recording::registry_changed(replies.push(reply), at) {
            Verdict::Asks(_) => true,
            Verdict::Passes(_, used) => used >= replies.len() + 1,
            Verdict::Fails(_, used) => used >= replies.len() + 1,
        },
{
    let now = replies.push(reply);
    assert(now.take(replies.len() as int) =~= replies);
    let verdict = recording::registry_changed(now, at);
    if !(verdict is Asks) {
        let used = if verdict is Passes {
            verdict->Passes_1
        } else {
            verdict->Fails_1
        };
        if used < now.len() {
            change_within(replies, reply, at);
        }
    }
}

/// A verdict that used no more than `replies` is reached with them alone.
proof fn change_within(replies: Seq<Reply>, reply: Reply, at: int)
    requires
        0 <= at <= replies.len(),
        match recording::registry_changed(replies.push(reply), at) {
            Verdict::Asks(_) => false,
            Verdict::Passes(_, used) => used <= replies.len(),
            Verdict::Fails(_, used) => used <= replies.len(),
        },
    ensures
        !(recording::registry_changed(replies, at) is Asks),
{
    let now = replies.push(reply);
    let read = reading::registry_read(now, at);
    read_uses(now, at);
    match read {
        Verdict::Passes(_, used) => {
            write_asks(now, used);
            read_within(replies, reply, at);
            reading::read_verdict_stands(replies, reply, at);
            write_within(replies, reply, used);
        },
        _ => {
            read_within(replies, reply, at);
            reading::read_verdict_stands(replies, reply, at);
        },
    }
}

proof fn read_within(replies: Seq<Reply>, reply: Reply, at: int)
    requires
        0 <= at <= replies.len(),
        match reading::registry_read(replies.push(reply), at) {
            Verdict::Asks(_) => false,
            Verdict::Passes(_, used) => used <= replies.len(),
            Verdict::Fails(_, used) => used <= replies.len(),
        },
    ensures
        !(reading::registry_read(replies, at) is Asks),
{
    let now = replies.push(reply);
    if replies.len() > at + 2 && replies[at + 2] is Document {
        let document = replies[at + 2]->Document_0;
        assert(now[at + 2] == replies[at + 2]);
        if !(replies[at] is Failed) && checks::private_file_facts(
            Place::Registry,
            replies[at + 1].inspection(),
        ) is Ok && document.version == REGISTRY_VERSION {
            let n = document.workspaces@.len() as int;
            entries_within(document.workspaces@, n, replies, reply, at + 3);
        }
    } else if replies.len() == at + 2 && now[at + 2] is Document && !(replies[at] is Failed)
        && checks::private_file_facts(Place::Registry, replies[at + 1].inspection()) is Ok {
        let document = now[at + 2]->Document_0;
        if document.version == REGISTRY_VERSION {
            let n = document.workspaces@.len() as int;
            reading::entries_use(document.workspaces@, n, now, at + 3);
        }
    }
}

proof fn entries_within(
    workspaces: Seq<WorkspaceRecord>,
    n: int,
    replies: Seq<Reply>,
    reply: Reply,
    at: int,
)
    requires
        0 <= n,
        0 <= at <= replies.len(),
        match reading::entries(workspaces, n, replies.push(reply), at) {
            Verdict::Asks(_) => false,
            Verdict::Passes(_, used) => used <= replies.len(),
            Verdict::Fails(_, used) => used <= replies.len(),
        },
    ensures
        reading::entries(workspaces, n, replies, at) == reading::entries(
            workspaces,
            n,
            replies.push(reply),
            at,
        ),
    decreases n,
{
    let now = replies.push(reply);
    if n > 0 {
        reading::entries_use(workspaces, n - 1, now, at);
        entries_within(workspaces, n - 1, replies, reply, at);
        if let Verdict::Passes(_, used) = reading::entries(workspaces, n - 1, now, at) {
            let path = workspaces[n - 1].path@;
            let place = Place::Entry((n - 1) as usize);
            assert(selection::selection(path, place, replies, used) == selection::selection(
                path,
                place,
                now,
                used,
            ));
        }
    }
}

proof fn write_within(replies: Seq<Reply>, reply: Reply, at: int)
    requires
        0 <= at <= replies.len(),
        match writing::registry_written(replies.push(reply), at) {
            Verdict::Asks(_) => false,
            Verdict::Passes(_, used) => used <= replies.len(),
            Verdict::Fails(_, used) => used <= replies.len(),
        },
    ensures
        !(writing::registry_written(replies, at) is Asks),
{
    let now = replies.push(reply);
    let checked = directory::private_directory(now, at);
    if let Verdict::Passes(_, used) = checked {
        if now.len() > used + 1 && checks::unless_symlinked(
            Place::Registry,
            now[used].inspection(),
        ) is Ok {
            publication_asks(now, used + 2);
            if replies.len() > used + 1 {
                assert(directory::private_directory(replies, at) == checked);
                publication_within(replies, reply, used + 2, 0);
            }
        }
    }
}

proof fn publication_within(replies: Seq<Reply>, reply: Reply, at: int, k: int)
    requires
        0 <= at,
        0 <= k <= 6,
        match writing::published(replies.push(reply), at, k) {
            Verdict::Asks(_) => false,
            Verdict::Passes(_, used) => used <= replies.len(),
            Verdict::Fails(_, used) => used <= replies.len(),
        },
    ensures
        !(writing::published(replies, at, k) is Asks),
    decreases 6 - k,
{
    let now = replies.push(reply);
    if k < 6 {
        reveal_with_fuel(writing::published, 8);
        if now.len() > at + k && !(now[at + k] is Failed) {
            publication_within(replies, reply, at, k + 1);
        }
    }
}

/// A recording that succeeds has, at its end, replaced the registry, flushed the directory, taken
/// the list over into memory and given up the lock, in this order.
pub proof fn successful_recording_is_stored(selected: Seq<u8>, replies: Seq<Reply>)
    requires
        recording::recording_run(selected, replies),
        recording::record_status(selected, replies) is Succeeds,
    ensures
        replies.len() >= 4,
        ({
            let n = replies.len();
            &&& recording::record_status(selected, replies.take(n - 4)) == Status::<Seq<u8>>::Asks(
                Action::ReplaceRegistry,
            )
            &&& !(replies[n - 4] is Failed)
            &&& recording::record_status(selected, replies.take(n - 3)) == Status::<Seq<u8>>::Asks(
                Action::SyncDirectory,
            )
            &&& !(replies[n - 3] is Failed)
            &&& recording::record_status(selected, replies.take(n - 2)) == Status::<Seq<u8>>::Asks(
                Action::Adopt,
            )
            &&& recording::record_status(selected, replies.take(n - 1)) == Status::<Seq<u8>>::Asks(
                Action::ReleaseLock,
            )
        }),
{
    let n = replies.len();
    let at = recording::read_from(selected, replies)->0;
    locking::lock_verdict_stands(replies, Reply::Done, 2);
    let read = reading::registry_read(replies, at);
    read_uses(replies, at);
    let used = read->Passes_1;
    let checked = directory::private_directory(replies, used);
    directory::directory_verdict_stands(replies, Reply::Done, used);
    let start = checked->Passes_1 + 2;
    publication_asks(replies, start);
    let end = start + 6;
    assert(writing::registry_written(replies, used) == writing::published(replies, start, 0));
    assert(recording::registry_changed(replies, at)->Passes_1 == end);
    assert(n == end + 2) by {
        if n > end + 2 {
            let p = replies.take(end + 2);
            run_point(selected, replies, end + 2);
            assert(recording::record_status(selected, p) is Asks);
            asked_where(selected, p);
            publication_prefix_passes(replies, start, end + 2);
        }
    }
    run_point(selected, replies, start + 4);
    run_point(selected, replies, start + 5);
    run_point(selected, replies, end);
    run_point(selected, replies, end + 1);
    publication_prefix(replies, start, 4);
    publication_prefix(replies, start, 5);
    assert(!(replies[start + 4] is Failed) && !(replies[start + 5] is Failed));
    publication_prefix_passes(replies, start, end);
    publication_prefix_passes(replies, start, end + 1);
}

/// A prefix that ends after some steps that succeeded asks for the next step.
proof fn publication_prefix(replies: Seq<Reply>, at: int, j: int)
    requires
        0 <= at,
        0 <= j < 6,
        replies.len() >= at + j,
        forall|i: int| 0 <= i < j ==> !(#[trigger] replies[at + i] is Failed),
    ensures
        writing::published(replies.take(at + j), at, 0) == Verdict::<(), RegistryError>::Asks(
            writing::publication_action(j),
        ),
{
    let p = replies.take(at + j);
    assert forall|i: int| 0 <= i < j implies !(#[trigger] p[at + i] is Failed) by {
        assert(p[at + i] == replies[at + i]);
    }
    reveal_with_fuel(writing::published, 8);
    assert(j > 0 ==> !(p[at + 0] is Failed));
    assert(j > 1 ==> !(p[at + 1] is Failed));
    assert(j > 2 ==> !(p[at + 2] is Failed));
    assert(j > 3 ==> !(p[at + 3] is Failed));
    assert(j > 4 ==> !(p[at + 4] is Failed));
}

/// A prefix that holds all the steps passes where they succeeded.
proof fn publication_prefix_passes(replies: Seq<Reply>, at: int, k: int)
    requires
        0 <= at,
        at + 6 <= k <= replies.len(),
        forall|i: int| 0 <= i < 6 ==> !(#[trigger] replies[at + i] is Failed),
    ensures
        writing::published(replies.take(k), at, 0) == Verdict::<(), RegistryError>::Passes(
            (),
            at + 6,
        ),
{
    let p = replies.take(k);
    assert forall|i: int| 0 <= i < 6 implies !(#[trigger] p[at + i] is Failed) by {
        assert(p[at + i] == replies[at + i]);
    }
    publication_passes(p, at);
}

/// Steps that all succeed publish.
proof fn publication_passes(replies: Seq<Reply>, at: int)
    requires
        0 <= at,
        replies.len() >= at + 6,
        forall|i: int| 0 <= i < 6 ==> !(#[trigger] replies[at + i] is Failed),
    ensures
        writing::published(replies, at, 0) == Verdict::<(), RegistryError>::Passes((), at + 6),
{
    reveal_with_fuel(writing::published, 8);
    assert(!(replies[at + 0] is Failed));
    assert(!(replies[at + 1] is Failed));
    assert(!(replies[at + 2] is Failed));
    assert(!(replies[at + 3] is Failed));
    assert(!(replies[at + 4] is Failed));
    assert(!(replies[at + 5] is Failed));
}

/// From the start of the publication on, a prefix of a recording that got there is past the lock,
/// the reading and the checks.
proof fn run_point(selected: Seq<u8>, replies: Seq<Reply>, k: int)
    requires
        recording::read_from(selected, replies) is Some,
        ({
            let at = recording::read_from(selected, replies)->0;
            let read = reading::registry_read(replies, at);
            let checked = directory::private_directory(replies, read->Passes_1);
            &&& read is Passes
            &&& checked is Passes
            &&& checks::unless_symlinked(
                Place::Registry,
                replies[checked->Passes_1].inspection(),
            ) is Ok
            &&& checked->Passes_1 + 2 <= k <= replies.len()
        }),
    ensures
        ({
            let at = recording::read_from(selected, replies)->0;
            let read = reading::registry_read(replies, at);
            let checked = directory::private_directory(replies, read->Passes_1);
            let p = replies.take(k);
            &&& recording::read_from(selected, p) == Some(at)
            &&& recording::chosen_path(selected, p) == recording::chosen_path(selected, replies)
            &&& recording::registry_changed(p, at) == writing::published(
                p,
                checked->Passes_1 + 2,
                0,
            )
        }),
    decreases replies.len() - k,
{
    let at = recording::read_from(selected, replies)->0;
    let read = reading::registry_read(replies, at);
    let used = read->Passes_1;
    let checked = directory::private_directory(replies, used);
    locking::lock_verdict_stands(replies, Reply::Done, 2);
    read_uses(replies, at);
    directory::directory_verdict_stands(replies, Reply::Done, used);
    if k == replies.len() {
        assert(replies.take(k) =~= replies);
    } else {
        let shorter = replies.drop_last();
        let last = replies.last();
        assert(replies =~= shorter.push(last));
        assert(locking::registry_locked(shorter, 2) == locking::registry_locked(replies, 2));
        read_within(shorter, last, at);
        reading::read_verdict_stands(shorter, last, at);
        assert(directory::private_directory(shorter, used) == checked);
        assert(shorter[checked->Passes_1] == replies[checked->Passes_1]);
        run_point(selected, shorter, k);
        assert(shorter.take(k) =~= replies.take(k));
    }
}

/// A recording validates its selection as a validation by itself does: it is refused for the same
/// reason, and where it succeeds, it does so with the path that the validation gives.
pub proof fn recording_validates_selection(selected: Seq<u8>, replies: Seq<Reply>)
    ensures
        selection::selection_status(selected, replies) is Asks
            ==> recording::record_status(selected, replies)
            == selection::selection_status(selected, replies),
        selection::selection_status(selected, replies) is Fails
            ==> recording::record_status(selected, replies)
            == selection::selection_status(selected, replies),
        recording::record_status(selected, replies) is Succeeds
            ==> selection::selection_status(selected, replies)
            == recording::record_status(selected, replies),
{
}

/// A workspace that is refused is refused before the lock or the registry is touched.
pub proof fn refused_selection_touches_nothing(selected: Seq<u8>, replies: Seq<Reply>, k: int)
    requires
        recording::record_status(selected, replies) is Fails,
        recording::record_status(selected, replies)->Fails_0 is InvalidSelection,
        0 <= k <= replies.len(),
        recording::record_status(selected, replies.take(k)) is Asks,
    ensures
        ({
            let action = recording::record_status(selected, replies.take(k))->Asks_0;
            ||| action == Action::Resolve(Place::Selection)
            ||| action == Action::Inspect(Place::Resolved)
        }),
{
    let earlier = replies.take(k);
    refusal_is_of_selection(selected, replies);
    if selection::selection(selected, Place::Selection, earlier, 0) is Passes {
        assert(earlier[0] == replies[0] && earlier[1] == replies[1]);
    }
}

/// Only the selection is refused as a selection.
proof fn refusal_is_of_selection(selected: Seq<u8>, replies: Seq<Reply>)
    requires
        recording::record_status(selected, replies) is Fails,
        recording::record_status(selected, replies)->Fails_0 is InvalidSelection,
    ensures
        selection::selection(selected, Place::Selection, replies, 0) is Fails,
{
    if let Some(at) = recording::read_from(selected, replies) {
        let read = reading::registry_read(replies, at);
        if read is Fails {
            if replies.len() > at + 2 && replies[at + 2] is Document {
                let workspaces = replies[at + 2]->Document_0.workspaces@;
                entries_fail(workspaces, workspaces.len() as int, replies, at + 3);
            }
        } else if read is Passes {
            locking::lock_verdict_stands(replies, Reply::Done, 2);
            read_uses(replies, at);
            let used = read->Passes_1;
            if let Verdict::Passes(_, looked) = directory::private_directory(replies, used) {
                reveal_with_fuel(writing::published, 8);
            }
        }
    }
}

proof fn entries_fail(workspaces: Seq<WorkspaceRecord>, n: int, replies: Seq<Reply>, at: int)
    ensures
        reading::entries(workspaces, n, replies, at) is Fails ==> !(reading::entries(
            workspaces,
            n,
            replies,
            at,
        )->Fails_0 is InvalidSelection),
    decreases n,
{
    if n > 0 {
        entries_fail(workspaces, n - 1, replies, at);
    }
}

} // verus!
