//! What the registry remembers, over loads and recordings.
//!
//! A reading of the registry file is related here to the file system that its replies tell of; and
//! what one recording stores is related to what the next reading finds.

use vstd::prelude::*;

use crate::directory;
use crate::laws;
use crate::locking;
use crate::paths;
use crate::protocol::{Reply, Status, WorkspaceRecord};
use crate::reading;
use crate::recording;
use crate::records;
use crate::records::{RecordView, REGISTRY_VERSION};
use crate::registry;
use crate::selection;

verus! {

/// What the file system has at absolute paths: the canonical path that each leads to, if any, and
/// which canonical paths are real directories.
pub struct FileSystem {
    pub resolve: spec_fn(Seq<u8>) -> Option<Seq<u8>>,
    pub directory: spec_fn(Seq<u8>) -> bool,
}

impl FileSystem {
    /// The canonical path that `path` leads to.
    pub open spec fn canonical(self, path: Seq<u8>) -> Seq<u8> {
        (self.resolve)(path)->0
    }

    /// The path leads to a real directory.
    pub open spec fn available(self, path: Seq<u8>) -> bool {
        (self.resolve)(path) is Some && (self.directory)(self.canonical(path))
    }

    /// The path can be stored: it is absolute, and where it leads to a directory, it is the
    /// canonical path.
    pub open spec fn acceptable(self, path: Seq<u8>) -> bool {
        &&& paths::absolute(path)
        &&& self.available(path) ==> paths::same_path(self.canonical(path), path)
    }

    /// The record of an entry whose path is available.
    pub open spec fn record(self, entry: RecordView) -> RecordView {
        RecordView { path: self.canonical(entry.path), last_used_ms: entry.last_used_ms }
    }
}

/// The replies on the entries of a document, from index `at` on, tell of this file system. There
/// are none on the entries after one that does not pass.
pub open spec fn told(
    workspaces: Seq<WorkspaceRecord>,
    replies: Seq<Reply>,
    at: int,
    files: FileSystem,
) -> bool {
    forall|k: int|
        0 <= k < workspaces.len() && (#[trigger] reading::entries(
            workspaces,
            k,
            replies,
            at,
        )) is Passes ==> told_of_entry(
            workspaces,
            k,
            replies,
            reading::entry_from(workspaces, k, replies, at),
            files,
        )
}

/// The replies on the entry at `k`, from index `p` on, tell of this file system.
pub open spec fn told_of_entry(
    workspaces: Seq<WorkspaceRecord>,
    k: int,
    replies: Seq<Reply>,
    p: int,
    files: FileSystem,
) -> bool {
    let path = workspaces[k].path@;
    let found = (files.resolve)(path);
    &&& paths::absolute(path) && p < replies.len() ==> {
        &&& replies[p] is Resolved <==> found is Some
        &&& replies[p] is Resolved ==> replies[p]->Resolved_0@ == found->0
    }
    &&& paths::absolute(path) && p + 1 < replies.len() && found is Some ==> (
    selection::finds_directory(replies[p + 1]) <==> (files.directory)(found->0))
}

/// The document that is read at index `at` is private and of the supported version.
pub open spec fn document_found(replies: Seq<Reply>, at: int) -> bool {
    &&& replies.len() >= at + 3
    &&& !(replies[at] is Failed)
    &&& laws::private_file(replies[at + 1])
    &&& replies[at + 2] is Document
    &&& replies[at + 2]->Document_0.version == REGISTRY_VERSION
}

/// The records that the document holds.
pub open spec fn document_records(replies: Seq<Reply>, at: int) -> Seq<RecordView> {
    records::record_views(replies[at + 2]->Document_0.workspaces@)
}

/// What was read from a document: it has the supported version; no path is stored twice; each entry
/// is absolute, was resolved to the path that it is stored by, leads to a real directory and is
/// listed, or is unavailable and set aside; and there is nothing else.
pub proof fn read_entries_are_accounted_for(replies: Seq<Reply>, at: int)
    requires
        0 <= at,
        reading::registry_read(replies, at) is Passes,
        !(replies[at] is Failed),
    ensures
        ({
            let document = replies[at + 2]->Document_0;
            let workspaces = document.workspaces@;
            let list = reading::registry_read(replies, at)->Passes_0;
            let aside = reading::set_aside(replies, at);
            &&& replies[at + 2] is Document
            &&& document.version == REGISTRY_VERSION
            &&& records::distinct_paths(records::record_views(workspaces))
            &&& forall|k: int|
                0 <= k < workspaces.len() ==> #[trigger] reading::accounted_for(
                    list,
                    aside,
                    workspaces,
                    k,
                    replies,
                    at + 3,
                )
            &&& forall|record: RecordView| #[trigger]
                list.contains(record) ==> exists|k: int|
                    0 <= k < workspaces.len() && #[trigger] reading::listed_from(
                        record,
                        workspaces,
                        k,
                        replies,
                        at + 3,
                    )
            &&& forall|record: RecordView| #[trigger]
                aside.contains(record) ==> exists|k: int|
                    0 <= k < workspaces.len() && #[trigger] reading::skipped_from(
                        record,
                        workspaces,
                        k,
                        replies,
                        at + 3,
                    )
        }),
{
    let workspaces = replies[at + 2]->Document_0.workspaces@;
    let views = records::record_views(workspaces);
    let n = workspaces.len() as int;
    let list = reading::registry_read(replies, at)->Passes_0;
    let aside = reading::set_aside(replies, at);
    let kept = reading::entries(workspaces, n, replies, at + 3)->Passes_0;
    reading::passing_entries(workspaces, n, replies, at + 3);
    assert forall|i: int, j: int| 0 <= i < j < views.len() implies !paths::same_path(
        #[trigger] views[i].path,
        #[trigger] views[j].path,
    ) by {
        assert(!paths::same_path(workspaces[i].path@, workspaces[j].path@));
    }
    assert forall|k: int| 0 <= k < n implies #[trigger] reading::accounted_for(
        list,
        aside,
        workspaces,
        k,
        replies,
        at + 3,
    ) by {
        assert(reading::accounted_for(kept, aside, workspaces, k, replies, at + 3));
        let p = reading::entry_from(workspaces, k, replies, at + 3);
        records::newest_first_contains(kept, reading::entry_record(workspaces, k, replies, p));
    }
    assert forall|record: RecordView| #[trigger] list.contains(record) implies exists|k: int|
        0 <= k < n && #[trigger] reading::listed_from(record, workspaces, k, replies, at + 3) by {
        records::newest_first_contains(kept, record);
        assert(kept.contains(record));
    }
}

/// A load that succeeds with a registry file lists exactly the entries that are usable; the others
/// are unavailable.
pub proof fn loaded_entries_are_usable(path: Seq<u8>, replies: Seq<Reply>)
    requires
        registry::load_status(path, replies) is Succeeds,
        !(replies[directory::private_directory(replies, 0)->Passes_1] is Failed),
    ensures
        ({
            let at = directory::private_directory(replies, 0)->Passes_1;
            let document = replies[at + 2]->Document_0;
            let workspaces = document.workspaces@;
            let list = registry::load_status(path, replies)->Succeeds_0;
            &&& replies[at + 2] is Document
            &&& document.version == REGISTRY_VERSION
            &&& forall|k: int|
                0 <= k < workspaces.len() ==> #[trigger] reading::accounted_for(
                    list,
                    reading::set_aside(replies, at),
                    workspaces,
                    k,
                    replies,
                    at + 3,
                )
            &&& forall|record: RecordView| #[trigger]
                list.contains(record) ==> exists|k: int|
                    0 <= k < workspaces.len() && #[trigger] reading::listed_from(
                        record,
                        workspaces,
                        k,
                        replies,
                        at + 3,
                    )
        }),
{
    directory::directory_verdict_stands(replies, Reply::Done, 0);
    read_entries_are_accounted_for(replies, directory::private_directory(replies, 0)->Passes_1);
}

/// An entry among those that pass is usable where its path is available, and otherwise it is
/// unavailable.
proof fn entry_is_as_told(
    workspaces: Seq<WorkspaceRecord>,
    n: int,
    k: int,
    replies: Seq<Reply>,
    at: int,
    files: FileSystem,
)
    requires
        0 <= k < n <= workspaces.len(),
        0 <= at <= replies.len(),
        told(workspaces, replies, at, files),
        reading::entries(workspaces, n, replies, at) is Passes,
    ensures
        ({
            let p = reading::entry_from(workspaces, k, replies, at);
            let entry = workspaces[k]@;
            &&& files.acceptable(entry.path)
            &&& reading::entry_usable(workspaces, k, replies, p) <==> files.available(entry.path)
            &&& reading::entry_unavailable(workspaces, k, replies, p) <==> !files.available(
                entry.path,
            )
            &&& files.available(entry.path) ==> reading::entry_record(workspaces, k, replies, p)
                == files.record(entry)
        }),
{
    if !(reading::entries(workspaces, k, replies, at) is Passes) {
        reading::entries_decided(workspaces, k, n, replies, at);
    }
    if !(reading::entries(workspaces, k + 1, replies, at) is Passes) {
        reading::entries_decided(workspaces, k + 1, n, replies, at);
    }
    reading::entries_use(workspaces, k, replies, at);
    reading::entries_use(workspaces, k + 1, replies, at);
}

/// Acceptable entries with distinct paths do not fail.
proof fn acceptable_entries_do_not_fail(
    workspaces: Seq<WorkspaceRecord>,
    n: int,
    replies: Seq<Reply>,
    at: int,
    files: FileSystem,
)
    requires
        0 <= n <= workspaces.len(),
        0 <= at <= replies.len(),
        told(workspaces, replies, at, files),
        forall|k: int|
            0 <= k < workspaces.len() ==> files.acceptable(#[trigger] workspaces[k].path@),
        records::distinct_paths(records::record_views(workspaces)),
    ensures
        !(reading::entries(workspaces, n, replies, at) is Fails),
    decreases n,
{
    if n > 0 {
        acceptable_entries_do_not_fail(workspaces, n - 1, replies, at, files);
        reading::entries_use(workspaces, n - 1, replies, at);
        let views = records::record_views(workspaces);
        assert(files.acceptable(workspaces[n - 1].path@));
        if reading::entries(workspaces, n - 1, replies, at) is Passes && reading::repeated(
            workspaces,
            n - 1,
        ) {
            let j = choose|j: int|
                0 <= j < n - 1 && paths::same_path(
                    #[trigger] workspaces[j].path@,
                    workspaces[n - 1].path@,
                );
            assert(!paths::same_path(views[j].path, views[n - 1].path));
        }
    }
}

/// The record is that of an available entry among `entries`.
pub open spec fn of_available(
    record: RecordView,
    entries: Seq<RecordView>,
    files: FileSystem,
) -> bool {
    exists|entry: RecordView| #[trigger]
        entries.contains(entry) && files.available(entry.path) && record == files.record(entry)
}

/// What reading a registry comes to, by what it holds and what the file system has: it passes if
/// and only if every path in it is acceptable and none is there twice. Then the list has the
/// available entries, by their canonical paths, in order, and no others: an entry that has
/// disappeared or is no directory any more is skipped, and set aside as it is stored.
pub proof fn reading_lists_what_is_available(replies: Seq<Reply>, at: int, files: FileSystem)
    requires
        0 <= at,
        document_found(replies, at),
        told(replies[at + 2]->Document_0.workspaces@, replies, at + 3, files),
        !(reading::registry_read(replies, at) is Asks),
    ensures
        reading::registry_read(replies, at) is Passes <==> {
            &&& forall|k: int|
                0 <= k < document_records(replies, at).len() ==> files.acceptable(
                    #[trigger] document_records(replies, at)[k].path,
                )
            &&& records::distinct_paths(document_records(replies, at))
        },
        reading::registry_read(replies, at) is Passes ==> {
            let list = reading::registry_read(replies, at)->Passes_0;
            let entries = document_records(replies, at);
            &&& records::is_newest_first(list)
            &&& records::distinct_paths(list)
            &&& forall|record: RecordView| #[trigger]
                list.contains(record) <==> of_available(record, entries, files)
            &&& forall|record: RecordView| #[trigger]
                reading::set_aside(replies, at).contains(record) <==> entries.contains(record)
                    && !files.available(record.path)
        },
{
    let workspaces = replies[at + 2]->Document_0.workspaces@;
    let n = workspaces.len() as int;
    let entries = document_records(replies, at);
    assert forall|k: int| 0 <= k < n implies #[trigger] entries[k] == workspaces[k]@ by {}
    if reading::registry_read(replies, at) is Passes {
        let list = reading::registry_read(replies, at)->Passes_0;
        let aside = reading::set_aside(replies, at);
        read_entries_are_accounted_for(replies, at);
        reading::read_records_are_sound(replies, at);
        assert forall|k: int| 0 <= k < entries.len() implies files.acceptable(
            #[trigger] entries[k].path,
        ) by {
            entry_is_as_told(workspaces, n, k, replies, at + 3, files);
        }
        assert forall|record: RecordView| #[trigger] list.contains(record) <==> of_available(
            record,
            entries,
            files,
        ) by {
            if list.contains(record) {
                let k = choose|k: int|
                    0 <= k < n && #[trigger] reading::listed_from(
                        record,
                        workspaces,
                        k,
                        replies,
                        at + 3,
                    );
                entry_is_as_told(workspaces, n, k, replies, at + 3, files);
                assert(entries.contains(entries[k]));
            }
            if of_available(record, entries, files) {
                let entry = choose|entry: RecordView| #[trigger]
                    entries.contains(entry) && files.available(entry.path) && record
                        == files.record(entry);
                let k = choose|k: int| 0 <= k < entries.len() && entries[k] == entry;
                entry_is_as_told(workspaces, n, k, replies, at + 3, files);
                assert(reading::accounted_for(list, aside, workspaces, k, replies, at + 3));
            }
        }
        assert forall|record: RecordView| #[trigger] aside.contains(record) <==> entries.contains(
            record,
        ) && !files.available(record.path) by {
            if aside.contains(record) {
                let k = choose|k: int|
                    0 <= k < n && #[trigger] reading::skipped_from(
                        record,
                        workspaces,
                        k,
                        replies,
                        at + 3,
                    );
                entry_is_as_told(workspaces, n, k, replies, at + 3, files);
                assert(entries[k] == record);
            }
            if entries.contains(record) && !files.available(record.path) {
                let k = choose|k: int| 0 <= k < entries.len() && entries[k] == record;
                entry_is_as_told(workspaces, n, k, replies, at + 3, files);
                assert(reading::accounted_for(list, aside, workspaces, k, replies, at + 3));
            }
        }
    } else {
        if (forall|k: int|
            0 <= k < entries.len() ==> files.acceptable(#[trigger] entries[k].path))
            && records::distinct_paths(entries) {
            assert forall|k: int| 0 <= k < workspaces.len() implies files.acceptable(
                #[trigger] workspaces[k].path@,
            ) by {
                assert(files.acceptable(entries[k].path));
            }
            acceptable_entries_do_not_fail(workspaces, n, replies, at + 3, files);
        }
    }
}

/// A load lists the available entries of the registry and skips the others.
pub proof fn load_lists_what_is_available(path: Seq<u8>, replies: Seq<Reply>, files: FileSystem)
    requires
        paths::parent_path(path) is Some,
        directory::private_directory(replies, 0) is Passes,
        ({
            let at = directory::private_directory(replies, 0)->Passes_1;
            &&& document_found(replies, at)
            &&& told(replies[at + 2]->Document_0.workspaces@, replies, at + 3, files)
        }),
        !(registry::load_status(path, replies) is Asks),
    ensures
        ({
            let entries = document_records(
                replies,
                directory::private_directory(replies, 0)->Passes_1,
            );
            let status = registry::load_status(path, replies);
            &&& status is Succeeds <==> {
                &&& forall|k: int|
                    0 <= k < entries.len() ==> files.acceptable(#[trigger] entries[k].path)
                &&& records::distinct_paths(entries)
            }
            &&& status is Succeeds ==> {
                &&& records::is_newest_first(status->Succeeds_0)
                &&& records::distinct_paths(status->Succeeds_0)
                &&& forall|record: RecordView| #[trigger]
                    status->Succeeds_0.contains(record) <==> of_available(record, entries, files)
            }
        }),
{
    directory::directory_verdict_stands(replies, Reply::Done, 0);
    reading_lists_what_is_available(
        replies,
        directory::private_directory(replies, 0)->Passes_1,
        files,
    );
}

/// The order of the entries in the file does not matter: two registry files with the same entries
/// are both refused, or are read as the same list.
pub proof fn entry_order_does_not_matter(
    first: Seq<Reply>,
    first_at: int,
    second: Seq<Reply>,
    second_at: int,
    files: FileSystem,
)
    requires
        0 <= first_at,
        0 <= second_at,
        document_found(first, first_at),
        document_found(second, second_at),
        document_records(first, first_at).to_multiset() == document_records(
            second,
            second_at,
        ).to_multiset(),
        told(first[first_at + 2]->Document_0.workspaces@, first, first_at + 3, files),
        told(second[second_at + 2]->Document_0.workspaces@, second, second_at + 3, files),
        !(reading::registry_read(first, first_at) is Asks),
        !(reading::registry_read(second, second_at) is Asks),
    ensures
        reading::registry_read(first, first_at) is Passes <==> reading::registry_read(
            second,
            second_at,
        ) is Passes,
        reading::registry_read(first, first_at) is Passes ==> {
            &&& reading::registry_read(first, first_at)->Passes_0 == reading::registry_read(
                second,
                second_at,
            )->Passes_0
            &&& forall|record: RecordView| #[trigger]
                reading::set_aside(first, first_at).contains(record) <==> reading::set_aside(
                    second,
                    second_at,
                ).contains(record)
        },
{
    broadcast use vstd::seq_lib::group_to_multiset_ensures;

    let a = document_records(first, first_at);
    let b = document_records(second, second_at);
    reading_lists_what_is_available(first, first_at, files);
    reading_lists_what_is_available(second, second_at, files);
    assert forall|entry: RecordView| #[trigger] a.contains(entry) <==> b.contains(entry) by {
        assert(a.contains(entry) <==> a.to_multiset().count(entry) > 0);
        assert(b.contains(entry) <==> b.to_multiset().count(entry) > 0);
    }
    acceptance_is_shared(a, b, files);
    acceptance_is_shared(b, a, files);
    if records::distinct_paths(a) {
        records::distinct_in_any_order(a, b);
    }
    if records::distinct_paths(b) {
        records::distinct_in_any_order(b, a);
    }
    if reading::registry_read(first, first_at) is Passes {
        let x = reading::registry_read(first, first_at)->Passes_0;
        let y = reading::registry_read(second, second_at)->Passes_0;
        assert forall|record: RecordView| x.contains(record) <==> y.contains(record) by {
            assert(of_available(record, a, files) <==> of_available(record, b, files)) by {
                if of_available(record, a, files) {
                    let entry = choose|entry: RecordView| #[trigger]
                        a.contains(entry) && files.available(entry.path) && record
                            == files.record(entry);
                    assert(b.contains(entry));
                }
                if of_available(record, b, files) {
                    let entry = choose|entry: RecordView| #[trigger]
                        b.contains(entry) && files.available(entry.path) && record
                            == files.record(entry);
                    assert(a.contains(entry));
                }
            }
        }
        records::same_content_same_order(x, y);
    }
}

/// Where all of `a` is acceptable, so is what has the same content.
proof fn acceptance_is_shared(a: Seq<RecordView>, b: Seq<RecordView>, files: FileSystem)
    requires
        forall|entry: RecordView| #[trigger] a.contains(entry) <==> b.contains(entry),
    ensures
        (forall|k: int| 0 <= k < a.len() ==> files.acceptable(#[trigger] a[k].path)) ==> (forall|
            k: int,
        |
            0 <= k < b.len() ==> files.acceptable(#[trigger] b[k].path)),
{
    if forall|k: int| 0 <= k < a.len() ==> files.acceptable(#[trigger] a[k].path) {
        assert forall|k: int| 0 <= k < b.len() implies files.acceptable(#[trigger] b[k].path) by {
            assert(b.contains(b[k]));
            assert(a.contains(b[k]));
            let i = choose|i: int| 0 <= i < a.len() && a[i] == b[k];
            assert(files.acceptable(a[i].path));
        }
    }
}

/// A recording stores its launch and every other record that the file held, and no more: the
/// skipped ones stay in the file. It lists its launch and every other record that was listed.
pub proof fn recording_keeps_other_records(
    selected: Seq<u8>,
    last_used_ms: u64,
    replies: Seq<Reply>,
)
    requires
        recording::stored_list(selected, last_used_ms, replies) is Some,
    ensures
        ({
            let at = recording::read_from(selected, replies)->0;
            let canonical = recording::chosen_path(selected, replies)->0;
            let launch = RecordView { path: canonical, last_used_ms };
            let stored = recording::stored_list(selected, last_used_ms, replies)->0;
            let listed = recording::recorded_list(selected, last_used_ms, replies)->0;
            &&& forall|record: RecordView| #[trigger]
                stored.contains(record) <==> record == launch || !paths::same_path(
                    record.path,
                    canonical,
                ) && reading::known_records(replies, at).contains(record)
            &&& forall|record: RecordView| #[trigger]
                listed.contains(record) <==> record == launch || !paths::same_path(
                    record.path,
                    canonical,
                ) && reading::registry_read(replies, at)->Passes_0.contains(record)
            &&& forall|record: RecordView| #[trigger]
                listed.contains(record) ==> stored.contains(record)
        }),
{
    let at = recording::read_from(selected, replies)->0;
    let canonical = recording::chosen_path(selected, replies)->0;
    let list = reading::registry_read(replies, at)->Passes_0;
    let known = reading::known_records(replies, at);
    records::launch_is_remembered(known, canonical, last_used_ms);
    records::launch_is_remembered(list, canonical, last_used_ms);
    assert forall|record: RecordView| list.contains(record) implies #[trigger] known.contains(
        record,
    ) by {
        let i = choose|i: int| 0 <= i < list.len() && list[i] == record;
        assert(known[i] == record);
    }
}

/// What a recording has stored is what the next load lists: a load of the document that it wrote
/// ends with the list that was recorded, as long as the state is private, each listed workspace is
/// still a directory under its canonical path, and each skipped one still is not.
pub proof fn recorded_list_is_reloaded(
    selected: Seq<u8>,
    last_used_ms: u64,
    earlier: Seq<Reply>,
    path: Seq<u8>,
    replies: Seq<Reply>,
    files: FileSystem,
)
    requires
        recording::recording_run(selected, earlier),
        recording::stored_list(selected, last_used_ms, earlier) is Some,
        paths::parent_path(path) is Some,
        directory::private_directory(replies, 0) is Passes,
        ({
            let at = directory::private_directory(replies, 0)->Passes_1;
            let stored = recording::stored_list(selected, last_used_ms, earlier)->0;
            let listed = recording::recorded_list(selected, last_used_ms, earlier)->0;
            &&& document_found(replies, at)
            &&& document_records(replies, at) == stored
            &&& told(replies[at + 2]->Document_0.workspaces@, replies, at + 3, files)
            &&& forall|record: RecordView| #[trigger]
                stored.contains(record) ==> if listed.contains(record) {
                    &&& (files.resolve)(record.path) == Some(record.path)
                    &&& (files.directory)(record.path)
                } else {
                    !files.available(record.path)
                }
        }),
        !(registry::load_status(path, replies) is Asks),
    ensures
        registry::load_status(path, replies) == Status::Succeeds(
            recording::recorded_list(selected, last_used_ms, earlier)->0,
        ),
{
    let stored = recording::stored_list(selected, last_used_ms, earlier)->0;
    let listed = recording::recorded_list(selected, last_used_ms, earlier)->0;
    recording::recorded_list_is_sound(selected, last_used_ms, earlier);
    recording_keeps_other_records(selected, last_used_ms, earlier);
    load_lists_what_is_available(path, replies, files);
    assert forall|k: int| 0 <= k < stored.len() implies files.acceptable(
        #[trigger] stored[k].path,
    ) by {
        assert(stored.contains(stored[k]));
    }
    let list = registry::load_status(path, replies)->Succeeds_0;
    assert forall|record: RecordView| list.contains(record) <==> listed.contains(record) by {
        if of_available(record, stored, files) {
            let entry = choose|entry: RecordView| #[trigger]
                stored.contains(entry) && files.available(entry.path) && record == files.record(
                    entry,
                );
            assert(listed.contains(entry));
            assert(record == entry);
        }
        if listed.contains(record) {
            assert(stored.contains(record));
            assert(files.record(record) == record);
        }
    }
    records::same_content_same_order(list, listed);
}

/// The list has a record of the same path and time.
pub open spec fn remembers(list: Seq<RecordView>, record: RecordView) -> bool {
    exists|i: int|
        0 <= i < list.len() && paths::same_path(#[trigger] list[i].path, record.path)
            && list[i].last_used_ms == record.last_used_ms
}

/// One of several recordings in the same registry.
pub struct Launch {
    pub selected: Seq<u8>,
    pub last_used_ms: u64,
    pub replies: Seq<Reply>,
}

impl Launch {
    /// The recording has succeeded.
    pub open spec fn succeeded(self) -> bool {
        recording::record_status(self.selected, self.replies) is Succeeds
    }

    /// The canonical path of the launched workspace.
    pub open spec fn canonical(self) -> Seq<u8> {
        recording::chosen_path(self.selected, self.replies)->0
    }

    /// The record of the launch.
    pub open spec fn record(self) -> RecordView {
        RecordView { path: self.canonical(), last_used_ms: self.last_used_ms }
    }

    /// The index of the first reply on the registry file.
    pub open spec fn read_from(self) -> int {
        recording::read_from(self.selected, self.replies)->0
    }

    /// The records that the registry held, as they were read under the lock.
    pub open spec fn known(self) -> Seq<RecordView> {
        reading::known_records(self.replies, self.read_from())
    }

    /// The records that were stored.
    pub open spec fn stored(self) -> Seq<RecordView> {
        recording::stored_list(self.selected, self.last_used_ms, self.replies)->0
    }
}

/// The recordings take turns under the lock: each succeeds, and finds the document that the one
/// before it has stored.
pub open spec fn turns(launches: Seq<Launch>) -> bool {
    &&& forall|i: int| 0 <= i < launches.len() ==> (#[trigger] launches[i]).succeeded()
    &&& forall|i: int, j: int|
        0 <= i && j == i + 1 && j < launches.len() ==> found_after(
            #[trigger] launches[i],
            #[trigger] launches[j],
        )
}

/// The later recording reads the document that the earlier one has stored.
pub open spec fn found_after(earlier: Launch, later: Launch) -> bool {
    &&& !(later.replies[later.read_from()] is Failed)
    &&& document_records(later.replies, later.read_from()) == earlier.stored()
}

/// A recording keeps what the registry remembers of other workspaces.
proof fn launch_keeps_memory(launch: Launch, record: RecordView)
    requires
        launch.succeeded(),
        remembers(launch.known(), record),
        !paths::same_path(record.path, launch.canonical()),
    ensures
        remembers(launch.stored(), record),
{
    let known = launch.known();
    let stored = launch.stored();
    recording_keeps_other_records(launch.selected, launch.last_used_ms, launch.replies);
    let i = choose|i: int|
        0 <= i < known.len() && paths::same_path(#[trigger] known[i].path, record.path)
            && known[i].last_used_ms == record.last_used_ms;
    assert(known.contains(known[i]));
    assert(stored.contains(known[i]));
    let j = choose|j: int| 0 <= j < stored.len() && stored[j] == known[i];
    assert(paths::same_path(stored[j].path, record.path));
}

/// What a document holds is known to the one that reads it, available or not.
proof fn document_is_known(launch: Launch, record: RecordView)
    requires
        launch.succeeded(),
        !(launch.replies[launch.read_from()] is Failed),
        remembers(document_records(launch.replies, launch.read_from()), record),
    ensures
        remembers(launch.known(), record),
{
    let at = launch.read_from();
    let replies = launch.replies;
    let workspaces = replies[at + 2]->Document_0.workspaces@;
    let entries = document_records(replies, at);
    let list = reading::registry_read(replies, at)->Passes_0;
    let aside = reading::set_aside(replies, at);
    let known = launch.known();
    locking::lock_verdict_stands(replies, Reply::Done, 2);
    read_entries_are_accounted_for(replies, at);
    let k = choose|k: int|
        0 <= k < entries.len() && paths::same_path(#[trigger] entries[k].path, record.path)
            && entries[k].last_used_ms == record.last_used_ms;
    assert(entries[k] == workspaces[k]@);
    assert(reading::accounted_for(list, aside, workspaces, k, replies, at + 3));
    let p = reading::entry_from(workspaces, k, replies, at + 3);
    let found = reading::entry_record(workspaces, k, replies, p);
    if reading::entry_usable(workspaces, k, replies, p) && list.contains(found) {
        let i = choose|i: int| 0 <= i < list.len() && list[i] == found;
        assert(known[i] == found);
        assert(paths::same_path(known[i].path, record.path));
    } else {
        let i = choose|i: int| 0 <= i < aside.len() && aside[i] == workspaces[k]@;
        assert(known[list.len() + i] == workspaces[k]@);
        assert(paths::same_path(known[list.len() + i].path, record.path));
    }
}

/// No update is lost: after recordings of different workspaces that took turns, the registry
/// remembers the launch of each of them, and every record that the first of them found and that is
/// of none of these workspaces, whether or not it was available meanwhile.
pub proof fn no_update_is_lost(launches: Seq<Launch>)
    requires
        launches.len() > 0,
        turns(launches),
        forall|i: int, j: int|
            0 <= i < j < launches.len() ==> !paths::same_path(
                #[trigger] launches[i].canonical(),
                #[trigger] launches[j].canonical(),
            ),
    ensures
        forall|i: int|
            0 <= i < launches.len() ==> remembers(
                launches.last().stored(),
                #[trigger] launches[i].record(),
            ),
        forall|record: RecordView| #[trigger]
            launches[0].known().contains(record) && (forall|i: int|
                0 <= i < launches.len() ==> !paths::same_path(
                    record.path,
                    #[trigger] launches[i].canonical(),
                )) ==> remembers(launches.last().stored(), record),
    decreases launches.len(),
{
    let last = launches.last();
    let n = launches.len() - 1;
    assert(launches[n].succeeded());
    recording_keeps_other_records(last.selected, last.last_used_ms, last.replies);
    assert(last.stored().contains(last.record()));
    assert(remembers(last.stored(), last.record())) by {
        let stored = last.stored();
        let i = choose|i: int| 0 <= i < stored.len() && stored[i] == last.record();
        assert(paths::same_path(stored[i].path, last.record().path));
    }
    if n > 0 {
        let shorter = launches.drop_last();
        let before = launches[n - 1];
        assert forall|i: int| 0 <= i < shorter.len() implies (
        #[trigger] shorter[i]).succeeded() by {
            assert(launches[i].succeeded());
        }
        assert forall|i: int, j: int| 0 <= i && j == i + 1 && j < shorter.len() implies found_after(
            #[trigger] shorter[i],
            #[trigger] shorter[j],
        ) by {
            assert(found_after(launches[i], launches[j]));
        }
        assert forall|i: int, j: int| 0 <= i < j < shorter.len() implies !paths::same_path(
            #[trigger] shorter[i].canonical(),
            #[trigger] shorter[j].canonical(),
        ) by {
            assert(!paths::same_path(launches[i].canonical(), launches[j].canonical()));
        }
        no_update_is_lost(shorter);
        assert(shorter.last() == before);
        assert(found_after(launches[n - 1], launches[n]));
        assert forall|i: int| 0 <= i < launches.len() implies remembers(
            last.stored(),
            #[trigger] launches[i].record(),
        ) by {
            if i < n {
                assert(shorter[i] == launches[i]);
                assert(remembers(before.stored(), shorter[i].record()));
                assert(!paths::same_path(launches[i].canonical(), launches[n].canonical()));
                document_is_known(last, launches[i].record());
                launch_keeps_memory(last, launches[i].record());
            }
        }
        assert forall|record: RecordView| #[trigger]
            launches[0].known().contains(record) && (forall|i: int|
                0 <= i < launches.len() ==> !paths::same_path(
                    record.path,
                    #[trigger] launches[i].canonical(),
                )) implies remembers(last.stored(), record) by {
            assert(shorter[0] == launches[0]);
            assert forall|i: int| 0 <= i < shorter.len() implies !paths::same_path(
                record.path,
                #[trigger] shorter[i].canonical(),
            ) by {
                assert(!paths::same_path(record.path, launches[i].canonical()));
            }
            assert(remembers(before.stored(), record));
            assert(!paths::same_path(record.path, launches[n].canonical()));
            document_is_known(last, record);
            launch_keeps_memory(last, record);
        }
    } else {
        assert(last == launches[0]);
        assert forall|record: RecordView| #[trigger]
            launches[0].known().contains(record) && (forall|i: int|
                0 <= i < launches.len() ==> !paths::same_path(
                    record.path,
                    #[trigger] launches[i].canonical(),
                )) implies remembers(last.stored(), record) by {
            assert(!paths::same_path(record.path, launches[0].canonical()));
            let known = last.known();
            let i = choose|i: int| 0 <= i < known.len() && known[i] == record;
            assert(paths::same_path(known[i].path, record.path));
            launch_keeps_memory(last, record);
        }
    }
}

} // verus!
