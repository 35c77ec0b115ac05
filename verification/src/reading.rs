//! Reading the registry file: it has to be private, hold a document of the supported version,
//! and hold each workspace once, by its canonical path. Workspaces that cannot be used any more are
//! left out of the list, and set aside.

use vstd::pervasive::unreached;
use vstd::prelude::*;

use crate::checks;
use crate::paths;
use crate::paths::Relation;
use crate::protocol::{
    Action, Place, RegistryError, Reply, SelectionError, Verdict, WorkspaceRecord,
};
use crate::records;
use crate::records::{RecordView, REGISTRY_VERSION};
use crate::selection;

verus! {

/// An earlier entry of the document has the path of the entry at `i`.
pub open spec fn repeated(workspaces: Seq<WorkspaceRecord>, i: int) -> bool {
    exists|j: int|
        0 <= j < i && paths::same_path(#[trigger] workspaces[j].path@, workspaces[i].path@)
}

/// Why a stored workspace cannot be used any more: it has disappeared, cannot be reached, or is no
/// directory. A relative path never was a workspace.
pub open spec fn unavailable(error: SelectionError) -> bool {
    !(error is NotAbsolute)
}

/// What the replies from index `at` on say of the entry at `i`, where `kept` are the records of
/// the entries before it. The entry has to be absolute, stored by its canonical path, and no
/// repetition. Its record is added, unless the workspace is unavailable: then it is skipped.
pub open spec fn entry_read(
    workspaces: Seq<WorkspaceRecord>,
    i: int,
    replies: Seq<Reply>,
    at: int,
    kept: Seq<RecordView>,
) -> Verdict<Seq<RecordView>, RegistryError> {
    let entry = workspaces[i];
    match selection::selection(entry.path@, Place::Entry(i as usize), replies, at) {
        Verdict::Asks(action) => Verdict::Asks(action),
        Verdict::Fails(error, used) => if !unavailable(error) {
            Verdict::Fails(RegistryError::InvalidEntry(entry.path, error), used)
        } else if repeated(workspaces, i) {
            Verdict::Fails(RegistryError::DuplicatePath, used)
        } else {
            Verdict::Passes(kept, used)
        },
        Verdict::Passes(canonical, used) => if !paths::same_path(canonical, entry.path@) {
            Verdict::Fails(RegistryError::NotCanonical(entry.path), used)
        } else if repeated(workspaces, i) {
            Verdict::Fails(RegistryError::DuplicatePath, used)
        } else {
            Verdict::Passes(
                kept.push(RecordView { path: canonical, last_used_ms: entry.last_used_ms }),
                used,
            )
        },
    }
}

/// What the replies from index `at` on say of the first `n` entries of a document. They pass with
/// the records of those that are available.
pub open spec fn entries(
    workspaces: Seq<WorkspaceRecord>,
    n: int,
    replies: Seq<Reply>,
    at: int,
) -> Verdict<Seq<RecordView>, RegistryError>
    decreases n,
{
    if n <= 0 {
        Verdict::Passes(Seq::empty(), at)
    } else {
        match entries(workspaces, n - 1, replies, at) {
            Verdict::Passes(kept, used) => entry_read(workspaces, n - 1, replies, used, kept),
            verdict => verdict,
        }
    }
}

/// The entry at `i`, on which the replies start at index `at`, is skipped.
pub open spec fn entry_skipped(
    workspaces: Seq<WorkspaceRecord>,
    i: int,
    replies: Seq<Reply>,
    at: int,
) -> bool {
    selection::selection(workspaces[i].path@, Place::Entry(i as usize), replies, at) is Fails
}

/// The records of those of the first `n` entries that were skipped, as they are stored, where all
/// of the `n` entries pass.
pub open spec fn skipped(
    workspaces: Seq<WorkspaceRecord>,
    n: int,
    replies: Seq<Reply>,
    at: int,
) -> Seq<RecordView>
    decreases n,
{
    if n <= 0 {
        Seq::empty()
    } else {
        let before = skipped(workspaces, n - 1, replies, at);
        let from = entries(workspaces, n - 1, replies, at)->Passes_1;
        if entry_skipped(workspaces, n - 1, replies, from) {
            before.push(workspaces[n - 1]@)
        } else {
            before
        }
    }
}

/// What the replies from index `at` on say of the registry file. A missing file is an empty
/// registry. The records are put in order, newest first.
pub open spec fn registry_read(replies: Seq<Reply>, at: int) -> Verdict<
    Seq<RecordView>,
    RegistryError,
> {
    if replies.len() <= at {
        Verdict::Asks(Action::Inspect(Place::Registry))
    } else if let Reply::Failed(failure) = replies[at] {
        if failure.not_found {
            Verdict::Passes(Seq::empty(), at + 1)
        } else {
            Verdict::Fails(RegistryError::CannotInspectRegistry(failure), at + 1)
        }
    } else if replies.len() == at + 1 {
        Verdict::Asks(Action::Inspect(Place::Registry))
    } else if let Err(error) = checks::private_file_facts(
        Place::Registry,
        replies[at + 1].inspection(),
    ) {
        Verdict::Fails(error, at + 2)
    } else if replies.len() == at + 2 {
        Verdict::Asks(Action::ReadRegistry)
    } else {
        match replies[at + 2] {
            Reply::Document(document) => if document.version != REGISTRY_VERSION {
                Verdict::Fails(RegistryError::UnsupportedVersion(document.version), at + 3)
            } else {
                match entries(
                    document.workspaces@,
                    document.workspaces@.len() as int,
                    replies,
                    at + 3,
                ) {
                    Verdict::Passes(kept, used) => Verdict::Passes(
                        records::newest_first(kept),
                        used,
                    ),
                    verdict => verdict,
                }
            },
            Reply::Unreadable(failure) => Verdict::Fails(
                RegistryError::CannotReadRegistry(failure),
                at + 3,
            ),
            malformed => Verdict::Fails(
                RegistryError::MalformedRegistry(malformed->Malformed_0),
                at + 3,
            ),
        }
    }
}

/// The records that were skipped when the registry file was read, and none where there is no file.
pub open spec fn set_aside(replies: Seq<Reply>, at: int) -> Seq<RecordView> {
    if replies[at] is Failed {
        Seq::empty()
    } else {
        let workspaces = replies[at + 2]->Document_0.workspaces@;
        skipped(workspaces, workspaces.len() as int, replies, at + 3)
    }
}

/// All the records that the registry file was found to hold: those that are listed, and those that
/// were skipped.
pub open spec fn known_records(replies: Seq<Reply>, at: int) -> Seq<RecordView> {
    registry_read(replies, at)->Passes_0 + set_aside(replies, at)
}

/// An entry that does not pass decides, whatever comes after it.
pub proof fn entries_decided(
    workspaces: Seq<WorkspaceRecord>,
    n: int,
    m: int,
    replies: Seq<Reply>,
    at: int,
)
    requires
        0 <= n <= m,
        !(entries(workspaces, n, replies, at) is Passes),
    ensures
        entries(workspaces, m, replies, at) == entries(workspaces, n, replies, at),
    decreases m - n,
{
    if n < m {
        entries_decided(workspaces, n, m - 1, replies, at);
    }
}

/// An entry takes at most two replies, and no more than there are.
pub proof fn entries_use(workspaces: Seq<WorkspaceRecord>, n: int, replies: Seq<Reply>, at: int)
    requires
        0 <= n,
        0 <= at <= replies.len(),
    ensures
        match entries(workspaces, n, replies, at) {
            Verdict::Asks(action) => {
                &&& replies.len() < at + 2 * n
                &&& action is Resolve || action == Action::Inspect(Place::Resolved)
            },
            Verdict::Passes(_, used) => at <= used <= replies.len() && used <= at + 2 * n,
            Verdict::Fails(_, used) => at <= used <= replies.len() && used <= at + 2 * n,
        },
    decreases n,
{
    if n > 0 {
        entries_use(workspaces, n - 1, replies, at);
    }
}

proof fn entries_stand(
    workspaces: Seq<WorkspaceRecord>,
    n: int,
    replies: Seq<Reply>,
    reply: Reply,
    at: int,
)
    requires
        0 <= n,
        0 <= at <= replies.len(),
        !(entries(workspaces, n, replies, at) is Asks),
    ensures
        entries(workspaces, n, replies.push(reply), at) == entries(workspaces, n, replies, at),
        entries(workspaces, n, replies, at) is Passes ==> skipped(
            workspaces,
            n,
            replies.push(reply),
            at,
        ) == skipped(workspaces, n, replies, at),
    decreases n,
{
    if n > 0 {
        entries_use(workspaces, n - 1, replies, at);
        entries_stand(workspaces, n - 1, replies, reply, at);
        if let Verdict::Passes(_, used) = entries(workspaces, n - 1, replies, at) {
            let path = workspaces[n - 1].path@;
            let place = Place::Entry((n - 1) as usize);
            assert(selection::selection(path, place, replies.push(reply), used)
                == selection::selection(path, place, replies, used));
        }
    }
}

/// A verdict that has been reached stands, whatever is replied later.
pub proof fn read_verdict_stands(replies: Seq<Reply>, reply: Reply, at: int)
    requires
        0 <= at,
        !(registry_read(replies, at) is Asks),
    ensures
        registry_read(replies.push(reply), at) == registry_read(replies, at),
        registry_read(replies, at) is Passes ==> set_aside(replies.push(reply), at) == set_aside(
            replies,
            at,
        ),
        match registry_read(replies, at) {
            Verdict::Asks(_) => true,
            Verdict::Passes(_, used) => at < used <= replies.len(),
            Verdict::Fails(_, used) => at < used <= replies.len(),
        },
{
    if replies.len() > at + 2 && replies[at + 2] is Document {
        let workspaces = replies[at + 2]->Document_0.workspaces@;
        let n = workspaces.len() as int;
        entries_use(workspaces, n, replies, at + 3);
        if !(entries(workspaces, n, replies, at + 3) is Asks) {
            entries_stand(workspaces, n, replies, reply, at + 3);
        }
    }
}

/// The entry at `k`, on which the replies start at index `p`, is usable and is stored by the path
/// that it resolves to.
pub open spec fn entry_usable(
    workspaces: Seq<WorkspaceRecord>,
    k: int,
    replies: Seq<Reply>,
    p: int,
) -> bool {
    &&& paths::absolute(workspaces[k].path@)
    &&& replies[p] is Resolved
    &&& paths::same_path(replies[p]->Resolved_0@, workspaces[k].path@)
    &&& selection::finds_directory(replies[p + 1])
}

/// The entry at `k`, on which the replies start at index `p`, cannot be used any more.
pub open spec fn entry_unavailable(
    workspaces: Seq<WorkspaceRecord>,
    k: int,
    replies: Seq<Reply>,
    p: int,
) -> bool {
    &&& paths::absolute(workspaces[k].path@)
    &&& !(replies[p] is Resolved) || !selection::finds_directory(replies[p + 1])
}

/// The record of the entry at `k`, whose canonical path came with the reply at index `p`.
pub open spec fn entry_record(
    workspaces: Seq<WorkspaceRecord>,
    k: int,
    replies: Seq<Reply>,
    p: int,
) -> RecordView {
    RecordView {
        path: replies[p]->Resolved_0@,
        last_used_ms: workspaces[k].last_used_ms,
    }
}

/// The index of the first reply on the entry at `k`, where the entries before it have passed.
pub open spec fn entry_from(
    workspaces: Seq<WorkspaceRecord>,
    k: int,
    replies: Seq<Reply>,
    at: int,
) -> int {
    entries(workspaces, k, replies, at)->Passes_1
}

/// The entry at `k` is usable and `listed` holds its record, or it is unavailable and `aside`
/// holds it as it is stored.
pub open spec fn accounted_for(
    listed: Seq<RecordView>,
    aside: Seq<RecordView>,
    workspaces: Seq<WorkspaceRecord>,
    k: int,
    replies: Seq<Reply>,
    at: int,
) -> bool {
    let p = entry_from(workspaces, k, replies, at);
    ||| entry_usable(workspaces, k, replies, p) && listed.contains(
        entry_record(workspaces, k, replies, p),
    )
    ||| entry_unavailable(workspaces, k, replies, p) && aside.contains(workspaces[k]@)
}

/// The record is that of the entry at `k`, which is usable.
pub open spec fn listed_from(
    record: RecordView,
    workspaces: Seq<WorkspaceRecord>,
    k: int,
    replies: Seq<Reply>,
    at: int,
) -> bool {
    let p = entry_from(workspaces, k, replies, at);
    entry_usable(workspaces, k, replies, p) && record == entry_record(workspaces, k, replies, p)
}

/// The record is the entry at `k` as it is stored, which is unavailable.
pub open spec fn skipped_from(
    record: RecordView,
    workspaces: Seq<WorkspaceRecord>,
    k: int,
    replies: Seq<Reply>,
    at: int,
) -> bool {
    let p = entry_from(workspaces, k, replies, at);
    entry_unavailable(workspaces, k, replies, p) && record == workspaces[k]@
}

/// The list with one more record holds that record and what it held.
proof fn push_contains(list: Seq<RecordView>, last: RecordView, record: RecordView)
    ensures
        list.push(last).contains(record) <==> list.contains(record) || record == last,
{
    let longer = list.push(last);
    if longer.contains(record) {
        let i = choose|i: int| 0 <= i < longer.len() && longer[i] == record;
        if i < list.len() {
            assert(list[i] == record);
        }
    }
    if list.contains(record) {
        let i = choose|i: int| 0 <= i < list.len() && list[i] == record;
        assert(longer[i] == record);
    }
    assert(longer[list.len() as int] == last);
}

/// Of entries that pass, each is accounted for, no two have the same path, and there are no other
/// records.
pub proof fn passing_entries(workspaces: Seq<WorkspaceRecord>, n: int, replies: Seq<Reply>, at: int)
    requires
        0 <= n,
        0 <= at <= replies.len(),
        entries(workspaces, n, replies, at) is Passes,
    ensures
        forall|k: int|
            0 <= k < n ==> #[trigger] accounted_for(
                entries(workspaces, n, replies, at)->Passes_0,
                skipped(workspaces, n, replies, at),
                workspaces,
                k,
                replies,
                at,
            ),
        forall|i: int, j: int|
            0 <= i < j < n ==> !paths::same_path(
                #[trigger] workspaces[i].path@,
                #[trigger] workspaces[j].path@,
            ),
        forall|record: RecordView| #[trigger]
            entries(workspaces, n, replies, at)->Passes_0.contains(record) ==> exists|k: int|
                0 <= k < n && #[trigger] listed_from(record, workspaces, k, replies, at),
        forall|record: RecordView| #[trigger]
            skipped(workspaces, n, replies, at).contains(record) ==> exists|k: int|
                0 <= k < n && #[trigger] skipped_from(record, workspaces, k, replies, at),
    decreases n,
{
    if n > 0 {
        passing_entries(workspaces, n - 1, replies, at);
        entries_use(workspaces, n - 1, replies, at);
        let p = entry_from(workspaces, n - 1, replies, at);
        let before = entries(workspaces, n - 1, replies, at)->Passes_0;
        let after = entries(workspaces, n, replies, at)->Passes_0;
        let aside_before = skipped(workspaces, n - 1, replies, at);
        let aside = skipped(workspaces, n, replies, at);
        let added = entry_record(workspaces, n - 1, replies, p);
        let stored = workspaces[n - 1]@;
        let usable = !entry_skipped(workspaces, n - 1, replies, p);
        assert(usable ==> entry_usable(workspaces, n - 1, replies, p) && after == before.push(
            added,
        ) && aside == aside_before);
        assert(!usable ==> entry_unavailable(workspaces, n - 1, replies, p) && after == before
            && aside == aside_before.push(stored));
        assert forall|k: int| 0 <= k < n implies #[trigger] accounted_for(
            after,
            aside,
            workspaces,
            k,
            replies,
            at,
        ) by {
            let record = entry_record(
                workspaces,
                k,
                replies,
                entry_from(workspaces, k, replies, at),
            );
            push_contains(before, added, record);
            push_contains(aside_before, stored, workspaces[k]@);
            if k < n - 1 {
                assert(accounted_for(before, aside_before, workspaces, k, replies, at));
            }
        }
        assert forall|i: int, j: int| 0 <= i < j < n implies !paths::same_path(
            #[trigger] workspaces[i].path@,
            #[trigger] workspaces[j].path@,
        ) by {
            if j == n - 1 {
                assert(!repeated(workspaces, n - 1));
            }
        }
        assert forall|record: RecordView| #[trigger] after.contains(record) implies exists|k: int|
            0 <= k < n && #[trigger] listed_from(record, workspaces, k, replies, at) by {
            push_contains(before, added, record);
            if before.contains(record) {
                let k = choose|k: int|
                    0 <= k < n - 1 && #[trigger] listed_from(record, workspaces, k, replies, at);
                assert(listed_from(record, workspaces, k, replies, at));
            } else {
                assert(listed_from(record, workspaces, n - 1, replies, at));
            }
        }
        assert forall|record: RecordView| #[trigger] aside.contains(record) implies exists|k: int|
            0 <= k < n && #[trigger] skipped_from(record, workspaces, k, replies, at) by {
            push_contains(aside_before, stored, record);
            if aside_before.contains(record) {
                let k = choose|k: int|
                    0 <= k < n - 1 && #[trigger] skipped_from(record, workspaces, k, replies, at);
                assert(skipped_from(record, workspaces, k, replies, at));
            } else {
                assert(skipped_from(record, workspaces, n - 1, replies, at));
            }
        }
    }
}

/// The records of entries that pass, listed and skipped together, have distinct absolute paths.
pub proof fn passing_records_are_sound(
    workspaces: Seq<WorkspaceRecord>,
    n: int,
    replies: Seq<Reply>,
    at: int,
)
    requires
        0 <= n,
        0 <= at <= replies.len(),
        entries(workspaces, n, replies, at) is Passes,
    ensures
        records::distinct_paths(
            entries(workspaces, n, replies, at)->Passes_0 + skipped(workspaces, n, replies, at),
        ),
        records::absolute_paths(
            entries(workspaces, n, replies, at)->Passes_0 + skipped(workspaces, n, replies, at),
        ),
    decreases n,
{
    if n > 0 {
        passing_records_are_sound(workspaces, n - 1, replies, at);
        entries_use(workspaces, n - 1, replies, at);
        passing_entries(workspaces, n, replies, at);
        passing_entries(workspaces, n - 1, replies, at);
        let p = entry_from(workspaces, n - 1, replies, at);
        let kept = entries(workspaces, n - 1, replies, at)->Passes_0;
        let aside = skipped(workspaces, n - 1, replies, at);
        let before = kept + aside;
        let stored = workspaces[n - 1].path@;
        let usable = !entry_skipped(workspaces, n - 1, replies, p);
        let added = if usable {
            entry_record(workspaces, n - 1, replies, p)
        } else {
            workspaces[n - 1]@
        };
        let position = if usable {
            kept.len() as int
        } else {
            before.len() as int
        };
        let after = entries(workspaces, n, replies, at)->Passes_0 + skipped(
            workspaces,
            n,
            replies,
            at,
        );
        assert(after =~= before.insert(position, added));
        assert(paths::same_path(added.path, stored));
        paths::absolute_is_shared(stored, added.path);
        assert forall|i: int| 0 <= i < before.len() implies !paths::same_path(
            #[trigger] before[i].path,
            stored,
        ) by {
            if i < kept.len() {
                assert(kept.contains(kept[i]));
                let k = choose|k: int|
                    0 <= k < n - 1 && #[trigger] listed_from(kept[i], workspaces, k, replies, at);
                assert(!paths::same_path(workspaces[k].path@, workspaces[n - 1].path@));
            } else {
                assert(aside.contains(aside[i - kept.len()]));
                let k = choose|k: int|
                    0 <= k < n - 1 && #[trigger] skipped_from(
                        aside[i - kept.len()],
                        workspaces,
                        k,
                        replies,
                        at,
                    );
                assert(!paths::same_path(workspaces[k].path@, workspaces[n - 1].path@));
            }
        }
        records::insert_keeps_distinct(before, position, added);
        assert forall|i: int| 0 <= i < after.len() implies paths::absolute(
            #[trigger] after[i].path,
        ) by {
            if i < position {
                assert(paths::absolute(before[i].path));
            } else if i > position {
                assert(paths::absolute(before[i - 1].path));
            }
        }
    }
}

/// What passes is in order; with what was skipped, it has distinct absolute paths.
pub proof fn read_records_are_sound(replies: Seq<Reply>, at: int)
    requires
        0 <= at,
        registry_read(replies, at) is Passes,
    ensures
        records::is_newest_first(registry_read(replies, at)->Passes_0),
        records::distinct_paths(registry_read(replies, at)->Passes_0),
        records::absolute_paths(registry_read(replies, at)->Passes_0),
        records::distinct_paths(known_records(replies, at)),
        records::absolute_paths(known_records(replies, at)),
{
    if !(replies[at] is Failed) {
        let workspaces = replies[at + 2]->Document_0.workspaces@;
        let n = workspaces.len() as int;
        let kept = entries(workspaces, n, replies, at + 3)->Passes_0;
        let aside = skipped(workspaces, n, replies, at + 3);
        passing_records_are_sound(workspaces, n, replies, at + 3);
        records::newest_first_is_ordered(kept);
        records::sorted_front_is_sound(kept, aside);
    }
}

/// Where the reading of the registry stands.
pub enum Reading {
    Look,
    Check,
    Read,
    Resolve(Entries),
    Examine(Entries, Vec<u8>),
}

/// The entries of a document, the index of the one that is looked at, the records of those before
/// it that are available, and those that were skipped.
pub struct Entries {
    pub workspaces: Vec<WorkspaceRecord>,
    pub index: usize,
    pub kept: Vec<WorkspaceRecord>,
    pub aside: Vec<WorkspaceRecord>,
}

/// What a reply leads to.
pub enum ReadingStep {
    Asks(Reading),
    Passes(Vec<WorkspaceRecord>, Vec<WorkspaceRecord>),
    Fails(RegistryError),
}

/// The registry file is there, private, and holds these entries under the supported version.
spec fn document_read(
    workspaces: Seq<WorkspaceRecord>,
    replies: Seq<Reply>,
    at: int,
) -> bool {
    &&& 0 <= at
    &&& replies.len() >= at + 3
    &&& !(replies[at] is Failed)
    &&& checks::private_file_facts(
        Place::Registry,
        replies[at + 1].inspection(),
    ) is Ok
    &&& replies[at + 2] is Document
    &&& replies[at + 2]->Document_0.version == REGISTRY_VERSION
    &&& replies[at + 2]->Document_0.workspaces@ == workspaces
}

impl Entries {
    /// The entries before the one that is looked at have passed, with these records, and have
    /// used the replies before index `used`.
    spec fn read(self, replies: Seq<Reply>, at: int, used: int) -> bool {
        &&& document_read(self.workspaces@, replies, at)
        &&& self.index <= self.workspaces@.len()
        &&& at + 3 <= used <= replies.len()
        &&& entries(self.workspaces@, self.index as int, replies, at + 3) == Verdict::<
            Seq<RecordView>,
            RegistryError,
        >::Passes(records::record_views(self.kept@), used)
        &&& skipped(self.workspaces@, self.index as int, replies, at + 3) == records::record_views(
            self.aside@,
        )
    }

    /// There is an entry to look at, and its path is absolute.
    spec fn has_entry(self) -> bool {
        &&& self.index < self.workspaces@.len()
        &&& paths::absolute(self.workspaces@[self.index as int].path@)
    }

    /// One more reply leaves standing what the entries before have come to.
    proof fn read_stands(self, replies: Seq<Reply>, reply: Reply, at: int, used: int)
        requires
            self.read(replies, at, used),
        ensures
            self.read(replies.push(reply), at, used),
    {
        entries_stand(self.workspaces@, self.index as int, replies, reply, at + 3);
    }

    /// The entry that is looked at decides, unless it passes.
    proof fn entry_decides(self, replies: Seq<Reply>, at: int, used: int)
        requires
            self.read(replies, at, used),
            self.index < self.workspaces@.len(),
        ensures
            entries(self.workspaces@, self.index + 1, replies, at + 3) == entry_read(
                self.workspaces@,
                self.index as int,
                replies,
                used,
                records::record_views(self.kept@),
            ),
            !(entries(self.workspaces@, self.index + 1, replies, at + 3) is Passes)
                ==> registry_read(replies, at) == entries(
                self.workspaces@,
                self.index + 1,
                replies,
                at + 3,
            ),
    {
        let next = self.index + 1;
        if !(entries(self.workspaces@, next, replies, at + 3) is Passes) {
            entries_decided(
                self.workspaces@,
                next,
                self.workspaces@.len() as int,
                replies,
                at + 3,
            );
        }
    }

    /// The path of the entry that is looked at.
    fn take_path(self) -> (path: Vec<u8>)
        requires
            self.index < self.workspaces@.len(),
        ensures
            path == self.workspaces@[self.index as int].path,
    {
        let mut workspaces = self.workspaces;
        workspaces.swap_remove(self.index).path
    }

    /// Tells whether an earlier entry has the path of the entry that is looked at.
    fn is_repeated(&self) -> (found: bool)
        requires
            self.index < self.workspaces@.len(),
        ensures
            found == repeated(self.workspaces@, self.index as int),
    {
        let path = self.workspaces[self.index].path.as_slice();
        let mut j: usize = 0;
        while j < self.index
            invariant
                j <= self.index < self.workspaces@.len(),
                path@ == self.workspaces@[self.index as int].path@,
                forall|k: int|
                    0 <= k < j ==> !paths::same_path(#[trigger] self.workspaces@[k].path@, path@),
            decreases self.index - j,
        {
            if let Relation::Same = paths::relate_paths(self.workspaces[j].path.as_slice(), path) {
                assert(paths::same_path(self.workspaces@[j as int].path@, path@));
                return true;
            }
            j = j + 1;
        }
        false
    }

    /// Goes on with the entry that is looked at, or ends with the records in order.
    fn advance(
        self,
        Ghost(replies): Ghost<Seq<Reply>>,
        Ghost(at): Ghost<int>,
    ) -> (step: ReadingStep)
        requires
            self.read(replies, at, replies.len() as int),
        ensures
            step.leads_to(replies, at),
    {
        if self.index == self.workspaces.len() {
            let mut list = self.kept;
            records::sort_records(&mut list);
            return ReadingStep::Passes(list, self.aside);
        }
        proof {
            self.entry_decides(replies, at, replies.len() as int);
        }
        if paths::is_absolute(self.workspaces[self.index].path.as_slice()) {
            ReadingStep::Asks(Reading::Resolve(self))
        } else {
            ReadingStep::Fails(
                RegistryError::InvalidEntry(self.take_path(), SelectionError::NotAbsolute),
            )
        }
    }

    /// Skips the entry that is looked at, which is unavailable.
    fn skip(
        self,
        Ghost(replies): Ghost<Seq<Reply>>,
        Ghost(at): Ghost<int>,
        Ghost(used): Ghost<int>,
    ) -> (step: ReadingStep)
        requires
            self.read(replies, at, used),
            self.has_entry(),
            ({
                let verdict = selection::selection(
                    self.workspaces@[self.index as int].path@,
                    Place::Entry(self.index),
                    replies,
                    used,
                );
                &&& verdict is Fails
                &&& unavailable(verdict->Fails_0)
                &&& verdict->Fails_1 == replies.len()
            }),
        ensures
            step.leads_to(replies, at),
    {
        proof {
            self.entry_decides(replies, at, used);
        }
        if self.is_repeated() {
            return ReadingStep::Fails(RegistryError::DuplicatePath);
        }
        let Entries { workspaces, index, kept, aside } = self;
        let ghost before = aside@;
        let mut aside = aside;
        aside.push(workspaces[index].clone());
        assert(records::record_views(aside@) =~= records::record_views(before).push(
            workspaces@[index as int]@,
        ));
        assert(index < workspaces.len());
        Entries { workspaces, index: index + 1, kept, aside }.advance(Ghost(replies), Ghost(at))
    }

    /// Decides on the entry that is looked at, whose canonical path has been examined.
    fn enter(
        self,
        resolved: Vec<u8>,
        Ghost(replies): Ghost<Seq<Reply>>,
        Ghost(at): Ghost<int>,
    ) -> (step: ReadingStep)
        requires
            self.read(replies, at, replies.len() - 2),
            self.has_entry(),
            replies[replies.len() - 2] == Reply::Resolved(resolved),
            selection::examination(replies.last().inspection()) is Ok,
        ensures
            step.leads_to(replies, at),
    {
        proof {
            self.entry_decides(replies, at, replies.len() - 2);
        }
        let relation = paths::relate_paths(
            resolved.as_slice(),
            self.workspaces[self.index].path.as_slice(),
        );
        match relation {
            Relation::Same => {},
            _ => {
                return ReadingStep::Fails(RegistryError::NotCanonical(self.take_path()));
            },
        }
        if self.is_repeated() {
            return ReadingStep::Fails(RegistryError::DuplicatePath);
        }
        let Entries { workspaces, index, kept, aside } = self;
        assert(index < workspaces.len());
        let ghost before = kept@;
        let last_used_ms = workspaces[index].last_used_ms;
        let mut kept = kept;
        kept.push(WorkspaceRecord { path: resolved, last_used_ms });
        assert(records::record_views(kept@) =~= records::record_views(before).push(
            RecordView { path: resolved@, last_used_ms },
        ));
        Entries { workspaces, index: index + 1, kept, aside }.advance(Ghost(replies), Ghost(at))
    }
}

impl Reading {
    pub open spec fn action(self) -> Action {
        match self {
            Reading::Look => Action::Inspect(Place::Registry),
            Reading::Check => Action::Inspect(Place::Registry),
            Reading::Read => Action::ReadRegistry,
            Reading::Resolve(entries) => Action::Resolve(Place::Entry(entries.index)),
            Reading::Examine(_, _) => Action::Inspect(Place::Resolved),
        }
    }

    /// The action that is waited for.
    pub fn pending(&self) -> (action: Action)
        ensures
            action == self.action(),
    {
        match self {
            Reading::Look => Action::Inspect(Place::Registry),
            Reading::Check => Action::Inspect(Place::Registry),
            Reading::Read => Action::ReadRegistry,
            Reading::Resolve(entries) => Action::Resolve(Place::Entry(entries.index)),
            Reading::Examine(_, _) => Action::Inspect(Place::Resolved),
        }
    }

    /// The replies from `at` on lead to this stage.
    pub closed spec fn reached(self, replies: Seq<Reply>, at: int) -> bool {
        &&& 0 <= at <= replies.len()
        &&& match self {
            Reading::Look => replies.len() == at,
            Reading::Check => replies.len() == at + 1 && !(replies[at] is Failed),
            Reading::Read => {
                &&& replies.len() == at + 2
                &&& !(replies[at] is Failed)
                &&& checks::private_file_facts(
                    Place::Registry,
                    replies[at + 1].inspection(),
                ) is Ok
            },
            Reading::Resolve(entries) => {
                &&& entries.read(replies, at, replies.len() as int)
                &&& entries.has_entry()
            },
            Reading::Examine(entries, resolved) => {
                &&& entries.read(replies, at, replies.len() - 1)
                &&& entries.has_entry()
                &&& replies.last() == Reply::Resolved(resolved)
            },
        }
    }

    /// Begins with a look at the registry file.
    pub(crate) fn start(Ghost(replies): Ghost<Seq<Reply>>) -> (reading: Self)
        ensures
            reading.reached(replies, replies.len() as int),
    {
        Reading::Look
    }

    /// The stored path of the entry at `index`, while it is to be resolved.
    pub fn entry(&self, index: usize) -> (path: Option<&Vec<u8>>)
        ensures
            match *self {
                Reading::Resolve(entries) => if index == entries.index && index
                    < entries.workspaces@.len() {
                    path == Some(&entries.workspaces@[index as int].path)
                } else {
                    path is None
                },
                _ => path is None,
            },
    {
        match self {
            Reading::Resolve(entries) => if index == entries.index && index
                < entries.workspaces.len() {
                Some(&entries.workspaces[index].path)
            } else {
                None
            },
            _ => None,
        }
    }

    /// The canonical path that is to be examined.
    pub fn resolved(&self) -> (path: Option<&Vec<u8>>)
        ensures
            match *self {
                Reading::Examine(_, resolved) => path == Some(&resolved),
                _ => path is None,
            },
    {
        match self {
            Reading::Examine(_, resolved) => Some(resolved),
            _ => None,
        }
    }

    /// A stage that is reached has its paths from the replies.
    pub proof fn reached_paths(self, replies: Seq<Reply>, at: int)
        requires
            self.reached(replies, at),
        ensures
            match self {
                Reading::Resolve(entries) => {
                    &&& replies.len() > at + 2
                    &&& replies[at + 2] is Document
                    &&& replies[at + 2]->Document_0.workspaces@ == entries.workspaces@
                    &&& entries.index < entries.workspaces@.len()
                },
                Reading::Examine(_, resolved) => replies.last() == Reply::Resolved(resolved),
                _ => true,
            },
    {
    }

    /// A stage that is reached has its action pending.
    pub proof fn reached_asks(self, replies: Seq<Reply>, at: int)
        requires
            self.reached(replies, at),
        ensures
            registry_read(replies, at) == Verdict::<Seq<RecordView>, RegistryError>::Asks(
                self.action(),
            ),
    {
        match self {
            Reading::Resolve(entries) => {
                entries.entry_decides(replies, at, replies.len() as int);
            },
            Reading::Examine(entries, _) => {
                entries.entry_decides(replies, at, replies.len() - 1);
            },
            _ => {},
        }
    }

    /// Takes the reply to the pending action.
    pub(crate) fn resume(
        self,
        reply: Reply,
        Ghost(replies): Ghost<Seq<Reply>>,
        Ghost(at): Ghost<int>,
    ) -> (step: ReadingStep)
        requires
            self.reached(replies, at),
            self.action().answered_by(reply),
        ensures
            step.leads_to(replies.push(reply), at),
    {
        let ghost now = replies.push(reply);
        match self {
            Reading::Look => match reply {
                Reply::Failed(failure) => if failure.not_found {
                    let list: Vec<WorkspaceRecord> = Vec::new();
                    assert(records::record_views(list@) =~= Seq::<RecordView>::empty());
                    assert(records::record_views(Seq::empty()) =~= Seq::<RecordView>::empty());
                    ReadingStep::Passes(list, Vec::new())
                } else {
                    ReadingStep::Fails(RegistryError::CannotInspectRegistry(failure))
                },
                _ => ReadingStep::Asks(Reading::Check),
            },
            Reading::Check => match checks::ensure_private_file(
                Place::Registry,
                reply.into_inspection(),
            ) {
                Ok(_) => ReadingStep::Asks(Reading::Read),
                Err(error) => ReadingStep::Fails(error),
            },
            Reading::Read => match reply {
                Reply::Document(document) => {
                    if document.version != REGISTRY_VERSION {
                        return ReadingStep::Fails(
                            RegistryError::UnsupportedVersion(document.version),
                        );
                    }
                    let kept: Vec<WorkspaceRecord> = Vec::new();
                    assert(records::record_views(kept@) =~= Seq::<RecordView>::empty());
                    let aside: Vec<WorkspaceRecord> = Vec::new();
                    assert(records::record_views(aside@) =~= Seq::<RecordView>::empty());
                    Entries { workspaces: document.workspaces, index: 0, kept, aside }.advance(
                        Ghost(now),
                        Ghost(at),
                    )
                },
                Reply::Unreadable(failure) => ReadingStep::Fails(
                    RegistryError::CannotReadRegistry(failure),
                ),
                Reply::Malformed(detail) => ReadingStep::Fails(
                    RegistryError::MalformedRegistry(detail),
                ),
                _ => unreached(),
            },
            Reading::Resolve(entries) => {
                let ghost used = replies.len() as int;
                proof {
                    entries.read_stands(replies, reply, at, used);
                    entries.entry_decides(now, at, used);
                }
                match reply.into_resolution() {
                    Ok(resolved) => ReadingStep::Asks(Reading::Examine(entries, resolved)),
                    Err(_) => entries.skip(Ghost(now), Ghost(at), Ghost(used)),
                }
            },
            Reading::Examine(entries, resolved) => {
                let ghost used = replies.len() - 1;
                proof {
                    entries.read_stands(replies, reply, at, used);
                    entries.entry_decides(now, at, used);
                }
                match selection::examine(reply.into_inspection()) {
                    Ok(_) => entries.enter(resolved, Ghost(now), Ghost(at)),
                    Err(_) => entries.skip(Ghost(now), Ghost(at), Ghost(used)),
                }
            },
        }
    }
}

impl ReadingStep {
    /// This is what the replies from `at` on amount to.
    pub open spec fn leads_to(self, replies: Seq<Reply>, at: int) -> bool {
        match self {
            ReadingStep::Asks(reading) => {
                &&& reading.reached(replies, at)
                &&& registry_read(replies, at) == Verdict::<Seq<RecordView>, RegistryError>::Asks(
                    reading.action(),
                )
            },
            ReadingStep::Passes(list, aside) => {
                &&& registry_read(replies, at) == Verdict::<Seq<RecordView>, RegistryError>::Passes(
                    records::record_views(list@),
                    replies.len() as int,
                )
                &&& set_aside(replies, at) == records::record_views(aside@)
            },
            ReadingStep::Fails(error) => registry_read(replies, at) == Verdict::<
                Seq<RecordView>,
                RegistryError,
            >::Fails(error, replies.len() as int),
        }
    }
}

/// How the entry at `i` fares, by its path and the replies on it. A relative path is refused; a
/// path that cannot be resolved or leads to no directory is skipped; one that was resolved to
/// another path is refused; and a path that an earlier entry has is refused, in use or not. What
/// passes adds the path that it was resolved to, with its own time.
pub proof fn entry_is_decided(
    workspaces: Seq<WorkspaceRecord>,
    i: int,
    replies: Seq<Reply>,
    at: int,
    kept: Seq<RecordView>,
)
    requires
        0 <= i < workspaces.len(),
        0 <= at,
    ensures
        ({
            let verdict = entry_read(workspaces, i, replies, at, kept);
            let path = workspaces[i].path;
            let n = replies.len();
            let rooted = path@.len() > 0 && path@[0] == 47;
            let again = exists|j: int|
                0 <= j < i && paths::same_path(#[trigger] workspaces[j].path@, path@);
            let missing = rooted && n > at && replies[at] is Failed;
            let resolved = rooted && n > at && replies[at] is Resolved;
            let examined = resolved && n > at + 1;
            let found = examined && replies[at + 1] is Facts && replies[at + 1]->Facts_0.directory
                && !replies[at + 1]->Facts_0.symlink;
            let lost = examined && (replies[at + 1] is Failed || replies[at + 1] is Facts && !found);
            let canonical = replies[at]->Resolved_0@;
            &&& !rooted ==> verdict == Verdict::<Seq<RecordView>, RegistryError>::Fails(
                RegistryError::InvalidEntry(path, SelectionError::NotAbsolute),
                at,
            )
            &&& rooted && n <= at ==> verdict == Verdict::<Seq<RecordView>, RegistryError>::Asks(
                Action::Resolve(Place::Entry(i as usize)),
            )
            &&& resolved && n == at + 1 ==> verdict == Verdict::<
                Seq<RecordView>,
                RegistryError,
            >::Asks(Action::Inspect(Place::Resolved))
            &&& missing && !again ==> verdict == Verdict::<Seq<RecordView>, RegistryError>::Passes(
                kept,
                at + 1,
            )
            &&& missing && again ==> verdict == Verdict::<Seq<RecordView>, RegistryError>::Fails(
                RegistryError::DuplicatePath,
                at + 1,
            )
            &&& lost && !again ==> verdict == Verdict::<Seq<RecordView>, RegistryError>::Passes(
                kept,
                at + 2,
            )
            &&& lost && again ==> verdict == Verdict::<Seq<RecordView>, RegistryError>::Fails(
                RegistryError::DuplicatePath,
                at + 2,
            )
            &&& found && !paths::same_path(canonical, path@) ==> verdict == Verdict::<
                Seq<RecordView>,
                RegistryError,
            >::Fails(RegistryError::NotCanonical(path), at + 2)
            &&& found && paths::same_path(canonical, path@) && again ==> verdict == Verdict::<
                Seq<RecordView>,
                RegistryError,
            >::Fails(RegistryError::DuplicatePath, at + 2)
            &&& found && paths::same_path(canonical, path@) && !again ==> verdict == Verdict::<
                Seq<RecordView>,
                RegistryError,
            >::Passes(
                kept.push(
                    RecordView { path: canonical, last_used_ms: workspaces[i].last_used_ms },
                ),
                at + 2,
            )
            &&& entry_skipped(workspaces, i, replies, at) <==> !rooted || n > at && !(
            replies[at] is Resolved) || examined && !found
        }),
{
    selection::selection_is_decided(
        workspaces[i].path@,
        Place::Entry(i as usize),
        replies,
        at,
    );
}

/// Entries are read one after the other, each from where the one before it has ended, and the first
/// that does not pass decides.
pub proof fn entries_are_read_in_turn(
    workspaces: Seq<WorkspaceRecord>,
    n: int,
    replies: Seq<Reply>,
    at: int,
)
    requires
        0 <= n,
    ensures
        entries(workspaces, 0, replies, at) == Verdict::<Seq<RecordView>, RegistryError>::Passes(
            Seq::empty(),
            at,
        ),
        entries(workspaces, n, replies, at) is Passes ==> {
            let kept = entries(workspaces, n, replies, at)->Passes_0;
            let used = entries(workspaces, n, replies, at)->Passes_1;
            &&& entries(workspaces, n + 1, replies, at) == entry_read(
                workspaces,
                n,
                replies,
                used,
                kept,
            )
            &&& entry_skipped(workspaces, n, replies, used) ==> skipped(
                workspaces,
                n + 1,
                replies,
                at,
            ) == skipped(workspaces, n, replies, at).push(
                RecordView {
                    path: workspaces[n].path@,
                    last_used_ms: workspaces[n].last_used_ms,
                },
            )
            &&& !entry_skipped(workspaces, n, replies, used) ==> skipped(
                workspaces,
                n + 1,
                replies,
                at,
            ) == skipped(workspaces, n, replies, at)
        },
        !(entries(workspaces, n, replies, at) is Passes) ==> entries(
            workspaces,
            n + 1,
            replies,
            at,
        ) == entries(workspaces, n, replies, at),
        skipped(workspaces, 0, replies, at) == Seq::<RecordView>::empty(),
{
}

/// How the registry file fares. A missing file is an empty registry; another failure to look is
/// refused; a file that is there has to be a regular file of the user with mode 0600, readable, and
/// to hold a document of version 1; then its entries decide.
pub proof fn reading_is_decided(replies: Seq<Reply>, at: int)
    requires
        0 <= at,
    ensures
        ({
            let verdict = registry_read(replies, at);
            let n = replies.len();
            let looked = n > at + 1 && replies[at] is Facts && replies[at + 1] is Facts;
            let facts = replies[at + 1]->Facts_0;
            let genuine = looked && facts.regular && !facts.symlink;
            let access = facts.access->0;
            let private = genuine && (facts.access is None || access.owner == access.user
                && access.mode & 0o777 == 0o600);
            let workspaces = replies[at + 2]->Document_0.workspaces@;
            let read = entries(workspaces, workspaces.len() as int, replies, at + 3);
            let current = private && n > at + 2 && replies[at + 2] is Document
                && replies[at + 2]->Document_0.version == 1;
            &&& n <= at ==> verdict == Verdict::<Seq<RecordView>, RegistryError>::Asks(
                Action::Inspect(Place::Registry),
            )
            &&& n > at && replies[at] is Failed && replies[at]->Failed_0.not_found ==> verdict
                == Verdict::<Seq<RecordView>, RegistryError>::Passes(Seq::empty(), at + 1)
                && set_aside(replies, at) == Seq::<RecordView>::empty()
            &&& n > at && replies[at] is Failed && !replies[at]->Failed_0.not_found ==> verdict
                == Verdict::<Seq<RecordView>, RegistryError>::Fails(
                RegistryError::CannotInspectRegistry(replies[at]->Failed_0),
                at + 1,
            )
            &&& n == at + 1 && replies[at] is Facts ==> verdict == Verdict::<
                Seq<RecordView>,
                RegistryError,
            >::Asks(Action::Inspect(Place::Registry))
            &&& n > at + 1 && replies[at] is Facts && replies[at + 1] is Failed ==> verdict
                == Verdict::<Seq<RecordView>, RegistryError>::Fails(
                RegistryError::Io(replies[at + 1]->Failed_0),
                at + 2,
            )
            &&& looked && !genuine ==> verdict == Verdict::<Seq<RecordView>, RegistryError>::Fails(
                RegistryError::NotAFile(Place::Registry),
                at + 2,
            )
            &&& genuine && facts.access is Some && access.owner != access.user ==> verdict
                == Verdict::<Seq<RecordView>, RegistryError>::Fails(
                RegistryError::NotOwned(Place::Registry),
                at + 2,
            )
            &&& genuine && facts.access is Some && access.owner == access.user && !private
                ==> verdict == Verdict::<Seq<RecordView>, RegistryError>::Fails(
                RegistryError::WrongMode(Place::Registry, 0o600),
                at + 2,
            )
            &&& private && n == at + 2 ==> verdict == Verdict::<
                Seq<RecordView>,
                RegistryError,
            >::Asks(Action::ReadRegistry)
            &&& private && n > at + 2 && replies[at + 2] is Unreadable ==> verdict == Verdict::<
                Seq<RecordView>,
                RegistryError,
            >::Fails(RegistryError::CannotReadRegistry(replies[at + 2]->Unreadable_0), at + 3)
            &&& private && n > at + 2 && replies[at + 2] is Malformed ==> verdict == Verdict::<
                Seq<RecordView>,
                RegistryError,
            >::Fails(RegistryError::MalformedRegistry(replies[at + 2]->Malformed_0), at + 3)
            &&& private && n > at + 2 && replies[at + 2] is Document && !current ==> verdict
                == Verdict::<Seq<RecordView>, RegistryError>::Fails(
                RegistryError::UnsupportedVersion(replies[at + 2]->Document_0.version),
                at + 3,
            )
            &&& current && read is Asks ==> verdict == Verdict::<
                Seq<RecordView>,
                RegistryError,
            >::Asks(read->Asks_0)
            &&& current && read is Fails ==> verdict == Verdict::<
                Seq<RecordView>,
                RegistryError,
            >::Fails(read->Fails_0, read->Fails_1)
            &&& current && read is Passes ==> {
                &&& verdict is Passes
                &&& verdict->Passes_0.to_multiset() == read->Passes_0.to_multiset()
                &&& records::is_newest_first(verdict->Passes_0)
                &&& verdict->Passes_1 == read->Passes_1
                &&& set_aside(replies, at) == skipped(
                    workspaces,
                    workspaces.len() as int,
                    replies,
                    at + 3,
                )
            }
        }),
{
    if replies.len() > at + 2 {
        let workspaces = replies[at + 2]->Document_0.workspaces@;
        let kept = entries(workspaces, workspaces.len() as int, replies, at + 3)->Passes_0;
        records::newest_first_keeps_records(kept);
        records::newest_first_is_ordered(kept);
    }
}

/// What is known is what is listed, followed by what was set aside.
pub proof fn known_is_listed_and_set_aside(replies: Seq<Reply>, at: int)
    ensures
        known_records(replies, at) == registry_read(replies, at)->Passes_0 + set_aside(replies, at),
{
}

} // verus!
