//! The order of remembered workspaces, and how a launch changes the list.

use vstd::prelude::*;

use crate::lexical;
use crate::paths;
use crate::paths::Relation;
use crate::protocol::WorkspaceRecord;

verus! {

/// The version of the documents that the registry reads and writes.
pub const REGISTRY_VERSION: u32 = 1;

/// A remembered workspace, as a specification value.
pub struct RecordView {
    pub path: Seq<u8>,
    pub last_used_ms: u64,
}

impl View for WorkspaceRecord {
    type V = RecordView;

    open spec fn view(&self) -> RecordView {
        RecordView { path: self.path@, last_used_ms: self.last_used_ms }
    }
}

pub open spec fn record_views(list: Seq<WorkspaceRecord>) -> Seq<RecordView> {
    list.map_values(|record: WorkspaceRecord| record@)
}

impl Clone for WorkspaceRecord {
    fn clone(&self) -> (copy: Self)
        ensures
            copy@ == self@,
    {
        WorkspaceRecord {
            path: paths::copy_bytes(self.path.as_slice()),
            last_used_ms: self.last_used_ms,
        }
    }
}

/// Copies a list of records.
pub fn copy_records(list: &Vec<WorkspaceRecord>) -> (copy: Vec<WorkspaceRecord>)
    ensures
        record_views(copy@) == record_views(list@),
{
    let mut copy: Vec<WorkspaceRecord> = Vec::new();
    let mut i: usize = 0;
    while i < list.len()
        invariant
            i <= list@.len(),
            record_views(copy@) == record_views(list@.take(i as int)),
        decreases list@.len() - i,
    {
        let ghost before = copy@;
        copy.push(list[i].clone());
        assert(record_views(copy@) =~= record_views(before).push(list@[i as int]@));
        assert(record_views(list@.take(i + 1)) =~= record_views(list@.take(i as int)).push(
            list@[i as int]@,
        ));
        i = i + 1;
    }
    assert(list@.take(i as int) =~= list@);
    copy
}

/// Copies two lists into one.
pub fn copy_both(first: &Vec<WorkspaceRecord>, second: &Vec<WorkspaceRecord>) -> (all: Vec<
    WorkspaceRecord,
>)
    ensures
        record_views(all@) == record_views(first@) + record_views(second@),
{
    let mut all = copy_records(first);
    let mut rest = copy_records(second);
    let ghost front = all@;
    let ghost back = rest@;
    all.append(&mut rest);
    assert(record_views(all@) =~= record_views(front) + record_views(back));
    all
}

/// The later launch comes first; of two launches at the same time, the earlier path.
pub open spec fn record_before(a: RecordView, b: RecordView) -> bool {
    ||| a.last_used_ms > b.last_used_ms
    ||| a.last_used_ms == b.last_used_ms && paths::path_before(a.path, b.path)
}

/// Every record stands after those that come before it.
pub open spec fn is_newest_first(list: Seq<RecordView>) -> bool {
    forall|i: int, j: int| 0 <= i < j < list.len() ==> !record_before(list[j], list[i])
}

/// No two records have the same path.
pub open spec fn distinct_paths(list: Seq<RecordView>) -> bool {
    forall|i: int, j: int|
        0 <= i < j < list.len() ==> !paths::same_path(
            #[trigger] list[i].path,
            #[trigger] list[j].path,
        )
}

/// Every record has an absolute path.
pub open spec fn absolute_paths(list: Seq<RecordView>) -> bool {
    forall|i: int| 0 <= i < list.len() ==> paths::absolute(#[trigger] list[i].path)
}

/// The list with `record` put in front of the records at its end that come after it.
pub open spec fn placed(list: Seq<RecordView>, record: RecordView) -> Seq<RecordView>
    decreases list.len(),
{
    if list.len() == 0 || !record_before(record, list.last()) {
        list.push(record)
    } else {
        placed(list.drop_last(), record).push(list.last())
    }
}

/// The records in order, those that neither comes before the other in the order they had.
pub open spec fn newest_first(list: Seq<RecordView>) -> Seq<RecordView>
    decreases list.len(),
{
    if list.len() == 0 {
        list
    } else {
        placed(newest_first(list.drop_last()), list.last())
    }
}

/// Tells whether one record comes before another.
fn precedes(a: &WorkspaceRecord, b: &WorkspaceRecord) -> (answer: bool)
    ensures
        answer == record_before(a@, b@),
{
    if a.last_used_ms > b.last_used_ms {
        true
    } else if a.last_used_ms < b.last_used_ms {
        false
    } else {
        match paths::relate_paths(a.path.as_slice(), b.path.as_slice()) {
            Relation::Before => true,
            _ => false,
        }
    }
}

proof fn placed_at(list: Seq<RecordView>, record: RecordView, position: int)
    requires
        0 <= position <= list.len(),
        position > 0 ==> !record_before(record, list[position - 1]),
        forall|k: int| position <= k < list.len() ==> record_before(record, list[k]),
    ensures
        placed(list, record) == list.insert(position, record),
    decreases list.len(),
{
    if position == list.len() {
        assert(list.insert(position, record) =~= list.push(record));
    } else {
        placed_at(list.drop_last(), record, position);
        assert(list.insert(position, record) =~= list.drop_last().insert(position, record).push(
            list.last(),
        ));
    }
}

/// Sorts records newest first.
pub fn sort_records(records: &mut Vec<WorkspaceRecord>)
    ensures
        record_views(final(records)@) == newest_first(record_views(old(records)@)),
        is_newest_first(record_views(final(records)@)),
        record_views(final(records)@).to_multiset() == record_views(
            old(records)@,
        ).to_multiset(),
{
    let ghost given = record_views(records@);
    let mut i: usize = 0;
    assert(record_views(records@).take(0) =~= newest_first(given.take(0)));
    while i < records.len()
        invariant
            i <= records@.len(),
            records@.len() == given.len(),
            record_views(records@).take(i as int) == newest_first(given.take(i as int)),
            record_views(records@).skip(i as int) == given.skip(i as int),
        decreases records@.len() - i,
    {
        let ghost views = record_views(records@);
        let ghost sorted = views.take(i as int);
        assert(views[i as int] == given[i as int]) by {
            assert(views.skip(i as int)[0] == given.skip(i as int)[0]);
        }
        let record = records.remove(i);
        let ghost rest = record_views(records@);
        assert(rest =~= views.remove(i as int));
        let mut position: usize = i;
        while position > 0 && precedes(&record, &records[position - 1])
            invariant
                position <= i <= records@.len(),
                rest == record_views(records@),
                rest == views.remove(i as int),
                i < views.len(),
                sorted == views.take(i as int),
                forall|k: int| position <= k < i ==> record_before(record@, rest[k]),
            decreases position,
        {
            position = position - 1;
        }
        proof {
            assert forall|k: int| 0 <= k < i implies sorted[k] == rest[k] by {}
            placed_at(sorted, record@, position as int);
        }
        records.insert(position, record);
        proof {
            let now = record_views(records@);
            assert(now =~= rest.insert(position as int, record@));
            assert(now.take(i + 1) =~= sorted.insert(position as int, record@));
            assert(given.take(i + 1).drop_last() =~= given.take(i as int));
            assert(given.take(i + 1).last() == given[i as int]);
            assert(now.skip(i + 1) =~= given.skip(i + 1)) by {
                assert forall|k: int| 0 <= k < now.skip(i + 1).len() implies #[trigger] now.skip(
                    i + 1,
                )[k] == given.skip(i + 1)[k] by {
                    assert(views.skip(i as int)[k + 1] == given.skip(i as int)[k + 1]);
                }
            }
        }
        i = i + 1;
    }
    proof {
        assert(record_views(records@).take(i as int) =~= record_views(records@));
        assert(given.take(i as int) =~= given);
        newest_first_is_ordered(given);
        newest_first_keeps_records(given);
    }
}

proof fn record_order_facts(a: RecordView, b: RecordView, c: RecordView)
    ensures
        !record_before(a, a),
        record_before(a, b) ==> !record_before(b, a),
        record_before(a, b) && record_before(b, c) ==> record_before(a, c),
        !record_before(a, b) && !record_before(b, c) ==> !record_before(a, c),
        record_before(a, b) || record_before(b, a) || (a.last_used_ms == b.last_used_ms
            && paths::same_path(a.path, b.path)),
{
    paths::orders_are_total();
    let before = paths::part_before();
    let x = paths::components(a.path);
    let y = paths::components(b.path);
    let z = paths::components(c.path);
    lexical::irreflexive(x, before);
    lexical::total(x, y, before);
    lexical::total(y, z, before);
    if lexical::comes_before(x, y, before) {
        lexical::asymmetric(x, y, before);
        if lexical::comes_before(y, z, before) {
            lexical::transitive(x, y, z, before);
        }
    }
    if lexical::comes_before(x, z, before) {
        lexical::asymmetric(x, z, before);
        if lexical::comes_before(z, y, before) {
            lexical::transitive(x, z, y, before);
        }
        if lexical::comes_before(y, x, before) {
            lexical::transitive(y, x, z, before);
        }
    }
}

proof fn placed_is_ordered(list: Seq<RecordView>, record: RecordView)
    requires
        is_newest_first(list),
    ensures
        is_newest_first(placed(list, record)),
        placed(list, record).len() == list.len() + 1,
        forall|k: int|
            0 <= k < list.len() + 1 ==> (#[trigger] placed(list, record)[k] == record
                || list.contains(placed(list, record)[k])),
    decreases list.len(),
{
    if list.len() == 0 || !record_before(record, list.last()) {
        let result = list.push(record);
        assert forall|i: int, j: int| 0 <= i < j < result.len() implies !record_before(
            result[j],
            result[i],
        ) by {
            if j == list.len() {
                record_order_facts(record, list.last(), list[i]);
                if i < list.len() - 1 {
                    assert(!record_before(list[list.len() - 1], list[i]));
                }
            }
        }
        assert forall|k: int| 0 <= k < result.len() implies (#[trigger] result[k] == record
            || list.contains(result[k])) by {
            if k < list.len() {
                assert(list[k] == result[k]);
            }
        }
    } else {
        let shorter = list.drop_last();
        placed_is_ordered(shorter, record);
        let middle = placed(shorter, record);
        let result = middle.push(list.last());
        assert forall|i: int, j: int| 0 <= i < j < result.len() implies !record_before(
            result[j],
            result[i],
        ) by {
            if j == middle.len() {
                if middle[i] == record {
                    record_order_facts(record, list.last(), record);
                } else {
                    assert(shorter.contains(middle[i]));
                    let k = choose|k: int| 0 <= k < shorter.len() && shorter[k] == middle[i];
                    assert(list[k] == middle[i]);
                }
            }
        }
        assert forall|k: int| 0 <= k < result.len() implies (#[trigger] result[k] == record
            || list.contains(result[k])) by {
            if k < middle.len() {
                assert(middle[k] == result[k]);
                if middle[k] != record {
                    let m = choose|m: int| 0 <= m < shorter.len() && shorter[m] == middle[k];
                    assert(list[m] == result[k]);
                }
            } else {
                assert(list[list.len() - 1] == result[k]);
            }
        }
    }
}

/// Sorting orders the records.
pub proof fn newest_first_is_ordered(list: Seq<RecordView>)
    ensures
        is_newest_first(newest_first(list)),
    decreases list.len(),
{
    if list.len() > 0 {
        newest_first_is_ordered(list.drop_last());
        placed_is_ordered(newest_first(list.drop_last()), list.last());
    }
}

proof fn placed_keeps_records(list: Seq<RecordView>, record: RecordView)
    ensures
        placed(list, record).to_multiset() == list.to_multiset().insert(record),
    decreases list.len(),
{
    broadcast use vstd::seq_lib::group_to_multiset_ensures;

    if list.len() > 0 && record_before(record, list.last()) {
        placed_keeps_records(list.drop_last(), record);
        assert(list =~= list.drop_last().push(list.last()));
        assert(placed(list, record).to_multiset() =~= list.to_multiset().insert(record));
    }
}

/// Sorting neither loses nor adds a record.
pub proof fn newest_first_keeps_records(list: Seq<RecordView>)
    ensures
        newest_first(list).to_multiset() == list.to_multiset(),
    decreases list.len(),
{
    broadcast use vstd::seq_lib::group_to_multiset_ensures;

    if list.len() > 0 {
        newest_first_keeps_records(list.drop_last());
        placed_keeps_records(newest_first(list.drop_last()), list.last());
        assert(list =~= list.drop_last().push(list.last()));
    }
}

/// The records whose path is not `path`.
pub open spec fn others(list: Seq<RecordView>, path: Seq<u8>) -> Seq<RecordView> {
    list.filter(|record: RecordView| !paths::same_path(record.path, path))
}

/// The list after a launch: the records of other paths, and one for this launch.
pub open spec fn upserted(list: Seq<RecordView>, path: Seq<u8>, last_used_ms: u64) -> Seq<
    RecordView,
> {
    newest_first(others(list, path).push(RecordView { path, last_used_ms }))
}

/// Records a launch in a list.
pub fn upsert(records: Vec<WorkspaceRecord>, path: &[u8], last_used_ms: u64) -> (updated: Vec<
    WorkspaceRecord,
>)
    ensures
        record_views(updated@) == upserted(record_views(records@), path@, last_used_ms),
{
    let ghost given = record_views(records@);
    let ghost keep = |record: RecordView| !paths::same_path(record.path, path@);
    let mut list = records;
    let mut i: usize = 0;
    let ghost mut seen: int = 0;
    proof {
        reveal(Seq::filter);
        assert(given.take(0).filter(keep) =~= Seq::<RecordView>::empty());
        assert(given.skip(0) =~= given);
        assert(record_views(list@) =~= given.take(0).filter(keep) + given.skip(0));
    }
    while i < list.len()
        invariant
            keep == (|record: RecordView| !paths::same_path(record.path, path@)),
            0 <= seen <= given.len(),
            i == given.take(seen).filter(keep).len(),
            record_views(list@) == given.take(seen).filter(keep) + given.skip(seen),
        decreases list@.len() - i,
    {
        let ghost before = list@;
        let ghost kept = given.take(seen).filter(keep);
        proof {
            assert(record_views(list@).len() == kept.len() + (given.len() - seen));
            assert(record_views(list@)[i as int] == given[seen]);
            assert(given.take(seen + 1) =~= given.take(seen).push(given[seen]));
            given.take(seen).lemma_filter_push(given[seen], keep);
        }
        match paths::relate_paths(list[i].path.as_slice(), path) {
            Relation::Same => {
                list.remove(i);
                proof {
                    assert(record_views(list@) =~= record_views(before).remove(i as int));
                    assert(record_views(list@) =~= kept + given.skip(seen + 1));
                }
            },
            _ => {
                i = i + 1;
                assert(record_views(list@) =~= kept.push(given[seen]) + given.skip(seen + 1));
            },
        }
        proof {
            seen = seen + 1;
        }
    }
    proof {
        assert(seen == given.len());
        assert(given.take(seen) =~= given);
        assert(record_views(list@) =~= given.filter(keep));
    }
    let ghost kept = list@;
    list.push(WorkspaceRecord { path: paths::copy_bytes(path), last_used_ms });
    proof {
        assert(record_views(list@) =~= record_views(kept).push(
            RecordView { path: path@, last_used_ms },
        ));
    }
    sort_records(&mut list);
    list
}

/// Records that neither comes before the other.
pub open spec fn tied_with(record: RecordView) -> spec_fn(RecordView) -> bool {
    |other: RecordView| !record_before(other, record) && !record_before(record, other)
}

proof fn placed_is_stable(list: Seq<RecordView>, new: RecordView, record: RecordView)
    ensures
        placed(list, new).filter(tied_with(record)) == list.push(new).filter(tied_with(record)),
    decreases list.len(),
{
    let tied = tied_with(record);
    if list.len() > 0 && record_before(new, list.last()) {
        let shorter = list.drop_last();
        let last = list.last();
        placed_is_stable(shorter, new, record);
        assert(list =~= shorter.push(last));
        placed(shorter, new).lemma_filter_push(last, tied);
        shorter.lemma_filter_push(new, tied);
        shorter.lemma_filter_push(last, tied);
        list.lemma_filter_push(new, tied);
        record_order_facts(new, last, record);
        record_order_facts(record, new, last);
        record_order_facts(last, record, new);
        record_order_facts(new, record, last);
    }
}

/// Sorting keeps records that tie in the order they had.
pub proof fn newest_first_is_stable(list: Seq<RecordView>, record: RecordView)
    ensures
        newest_first(list).filter(tied_with(record)) == list.filter(tied_with(record)),
    decreases list.len(),
{
    if list.len() > 0 {
        let shorter = list.drop_last();
        let last = list.last();
        newest_first_is_stable(shorter, record);
        placed_is_stable(newest_first(shorter), last, record);
        newest_first(shorter).lemma_filter_push(last, tied_with(record));
        shorter.lemma_filter_push(last, tied_with(record));
        assert(list =~= shorter.push(last));
    }
}

/// Sorting a list that is in order changes nothing.
pub proof fn newest_first_of_ordered(list: Seq<RecordView>)
    requires
        is_newest_first(list),
    ensures
        newest_first(list) == list,
    decreases list.len(),
{
    if list.len() > 0 {
        let shorter = list.drop_last();
        newest_first_of_ordered(shorter);
        if shorter.len() > 0 {
            assert(!record_before(list[list.len() - 1], list[list.len() - 2]));
        }
        assert(list =~= shorter.push(list.last()));
    }
}

/// A sorted list holds the records that were given, and no others.
pub proof fn newest_first_contains(list: Seq<RecordView>, record: RecordView)
    ensures
        newest_first(list).contains(record) <==> list.contains(record),
        newest_first(list).len() == list.len(),
{
    broadcast use vstd::seq_lib::group_to_multiset_ensures;

    newest_first_keeps_records(list);
    assert(newest_first(list).contains(record) <==> newest_first(list).to_multiset().count(record)
        > 0);
    assert(list.contains(record) <==> list.to_multiset().count(record) > 0);
    assert(newest_first(list).len() == newest_first(list).to_multiset().len());
}

proof fn placed_inserts(list: Seq<RecordView>, record: RecordView) -> (position: int)
    ensures
        0 <= position <= list.len(),
        placed(list, record) == list.insert(position, record),
    decreases list.len(),
{
    if list.len() == 0 || !record_before(record, list.last()) {
        assert(list.insert(list.len() as int, record) =~= list.push(record));
        list.len() as int
    } else {
        let position = placed_inserts(list.drop_last(), record);
        assert(list.insert(position, record) =~= list.drop_last().insert(position, record).push(
            list.last(),
        ));
        position
    }
}

/// A record of another path can be put anywhere.
pub proof fn insert_keeps_distinct(list: Seq<RecordView>, position: int, record: RecordView)
    requires
        0 <= position <= list.len(),
        distinct_paths(list),
        forall|i: int|
            0 <= i < list.len() ==> !paths::same_path(#[trigger] list[i].path, record.path),
    ensures
        distinct_paths(list.insert(position, record)),
{
    let result = list.insert(position, record);
    assert forall|i: int, j: int| 0 <= i < j < result.len() implies !paths::same_path(
        #[trigger] result[i].path,
        #[trigger] result[j].path,
    ) by {
        let a = if i < position {
            i
        } else {
            i - 1
        };
        let b = if j < position {
            j
        } else {
            j - 1
        };
        if i == position {
            assert(result[j] == list[b]);
            assert(!paths::same_path(list[b].path, record.path));
        } else if j == position {
            assert(result[i] == list[a]);
            assert(!paths::same_path(list[a].path, record.path));
        } else {
            assert(result[i] == list[a] && result[j] == list[b]);
            assert(!paths::same_path(list[a].path, list[b].path));
        }
    }
}

/// Sorting keeps paths distinct.
pub proof fn newest_first_keeps_distinct(list: Seq<RecordView>)
    requires
        distinct_paths(list),
    ensures
        distinct_paths(newest_first(list)),
    decreases list.len(),
{
    if list.len() > 0 {
        let shorter = list.drop_last();
        let last = list.last();
        assert forall|i: int, j: int| 0 <= i < j < shorter.len() implies !paths::same_path(
            #[trigger] shorter[i].path,
            #[trigger] shorter[j].path,
        ) by {
            assert(!paths::same_path(list[i].path, list[j].path));
        }
        newest_first_keeps_distinct(shorter);
        let sorted = newest_first(shorter);
        assert forall|k: int| 0 <= k < sorted.len() implies !paths::same_path(
            #[trigger] sorted[k].path,
            last.path,
        ) by {
            newest_first_contains(shorter, sorted[k]);
            let m = choose|m: int| 0 <= m < shorter.len() && shorter[m] == sorted[k];
            assert(!paths::same_path(list[m].path, list[list.len() - 1].path));
        }
        let position = placed_inserts(sorted, last);
        insert_keeps_distinct(sorted, position, last);
    }
}

/// Sorting keeps paths absolute.
pub proof fn newest_first_keeps_absolute(list: Seq<RecordView>)
    requires
        absolute_paths(list),
    ensures
        absolute_paths(newest_first(list)),
{
    let sorted = newest_first(list);
    assert forall|i: int| 0 <= i < sorted.len() implies paths::absolute(
        #[trigger] sorted[i].path,
    ) by {
        newest_first_contains(list, sorted[i]);
        let k = choose|k: int| 0 <= k < list.len() && list[k] == sorted[i];
        assert(paths::absolute(list[k].path));
    }
}

/// Whether paths are distinct does not depend on the order.
pub proof fn distinct_in_any_order(a: Seq<RecordView>, b: Seq<RecordView>)
    requires
        distinct_paths(a),
        a.to_multiset() == b.to_multiset(),
    ensures
        distinct_paths(b),
{
    broadcast use vstd::seq_lib::group_to_multiset_ensures;

    assert(a.no_duplicates()) by {
        assert forall|i: int, j: int| 0 <= i < a.len() && 0 <= j < a.len() && i != j implies a[i]
            != a[j] by {
            assert(!paths::same_path(a[i].path, a[j].path) || !paths::same_path(
                a[j].path,
                a[i].path,
            ));
        }
    }
    a.lemma_multiset_has_no_duplicates();
    b.lemma_multiset_has_no_duplicates_conv();
    assert forall|i: int, j: int| 0 <= i < j < b.len() implies !paths::same_path(
        #[trigger] b[i].path,
        #[trigger] b[j].path,
    ) by {
        assert(b.contains(b[i]) && b.contains(b[j]));
        assert(b.to_multiset().count(b[i]) > 0 && b.to_multiset().count(b[j]) > 0);
        assert(a.contains(b[i]) && a.contains(b[j]));
        let x = choose|x: int| 0 <= x < a.len() && a[x] == b[i];
        let y = choose|y: int| 0 <= y < a.len() && a[y] == b[j];
        assert(b[i] != b[j]);
        assert(!paths::same_path(a[x].path, a[y].path) || !paths::same_path(
            a[y].path,
            a[x].path,
        ));
    }
}

/// Sorting the front of a list keeps its paths distinct and absolute.
pub proof fn sorted_front_is_sound(front: Seq<RecordView>, rest: Seq<RecordView>)
    requires
        distinct_paths(front + rest),
        absolute_paths(front + rest),
    ensures
        distinct_paths(newest_first(front)),
        absolute_paths(newest_first(front)),
        distinct_paths(newest_first(front) + rest),
        absolute_paths(newest_first(front) + rest),
{
    let all = front + rest;
    let sorted = newest_first(front);
    let result = sorted + rest;
    assert forall|i: int, j: int| 0 <= i < j < front.len() implies !paths::same_path(
        #[trigger] front[i].path,
        #[trigger] front[j].path,
    ) by {
        assert(!paths::same_path(all[i].path, all[j].path));
    }
    assert forall|i: int| 0 <= i < front.len() implies paths::absolute(
        #[trigger] front[i].path,
    ) by {
        assert(paths::absolute(all[i].path));
    }
    newest_first_keeps_distinct(front);
    newest_first_keeps_absolute(front);
    assert forall|i: int| 0 <= i < rest.len() implies #[trigger] rest[i] == all[front.len()
        + i] by {}
    assert forall|i: int, j: int| 0 <= i < j < result.len() implies !paths::same_path(
        #[trigger] result[i].path,
        #[trigger] result[j].path,
    ) by {
        if j < sorted.len() {
            assert(!paths::same_path(sorted[i].path, sorted[j].path));
        } else {
            let b = j - sorted.len();
            assert(rest[b] == result[j]);
            if i < sorted.len() {
                newest_first_contains(front, sorted[i]);
                let k = choose|k: int| 0 <= k < front.len() && front[k] == sorted[i];
                assert(all[k] == sorted[i]);
                assert(!paths::same_path(all[k].path, all[front.len() + b].path));
            } else {
                let a = i - sorted.len();
                assert(rest[a] == result[i]);
                assert(!paths::same_path(all[front.len() + a].path, all[front.len() + b].path));
            }
        }
    }
    assert forall|i: int| 0 <= i < result.len() implies paths::absolute(
        #[trigger] result[i].path,
    ) by {
        if i < sorted.len() {
            assert(paths::absolute(sorted[i].path));
        } else {
            assert(rest[i - sorted.len()] == result[i]);
            assert(paths::absolute(all[front.len() + (i - sorted.len())].path));
        }
    }
}

/// There is only one order for records with distinct paths.
pub proof fn order_is_unique(a: Seq<RecordView>, b: Seq<RecordView>)
    requires
        is_newest_first(a),
        is_newest_first(b),
        distinct_paths(a),
        a.to_multiset() == b.to_multiset(),
    ensures
        a == b,
    decreases a.len(),
{
    broadcast use vstd::seq_lib::group_to_multiset_ensures;

    assert(a.len() == a.to_multiset().len() && b.len() == b.to_multiset().len());
    if a.len() > 0 {
        assert(a.contains(a[0]) && b.contains(b[0]));
        assert(a.to_multiset().count(a[0]) > 0 && b.to_multiset().count(b[0]) > 0);
        assert(b.contains(a[0]) && a.contains(b[0]));
        let k = choose|k: int| 0 <= k < b.len() && b[k] == a[0];
        let m = choose|m: int| 0 <= m < a.len() && a[m] == b[0];
        if m != 0 {
            if k == 0 {
                assert(a[m] == a[0]);
            } else {
                assert(!record_before(b[k], b[0]));
                assert(!record_before(a[m], a[0]));
                record_order_facts(a[0], b[0], a[0]);
            }
            assert(paths::same_path(a[0].path, a[m].path));
        }
        assert(a[0] == b[0]);
        let c = a.drop_first();
        let d = b.drop_first();
        assert(a =~= seq![a[0]] + c && b =~= seq![b[0]] + d);
        assert(a =~= c.insert(0, a[0]) && b =~= d.insert(0, b[0]));
        c.insert_ensures(0, a[0]);
        assert(a.remove(0) =~= c && b.remove(0) =~= d);
        assert(c.to_multiset() =~= a.to_multiset().remove(a[0]));
        assert(d.to_multiset() =~= b.to_multiset().remove(b[0]));
        assert forall|i: int, j: int| 0 <= i < j < c.len() implies !record_before(c[j], c[i]) by {
            assert(!record_before(a[j + 1], a[i + 1]));
        }
        assert forall|i: int, j: int| 0 <= i < j < d.len() implies !record_before(d[j], d[i]) by {
            assert(!record_before(b[j + 1], b[i + 1]));
        }
        assert forall|i: int, j: int| 0 <= i < j < c.len() implies !paths::same_path(
            #[trigger] c[i].path,
            #[trigger] c[j].path,
        ) by {
            assert(!paths::same_path(a[i + 1].path, a[j + 1].path));
        }
        order_is_unique(c, d);
    } else {
        assert(a =~= b);
    }
}

proof fn others_facts(list: Seq<RecordView>, path: Seq<u8>)
    ensures
        forall|record: RecordView| #[trigger]
            others(list, path).contains(record) <==> list.contains(record) && !paths::same_path(
                record.path,
                path,
            ),
        distinct_paths(list) ==> distinct_paths(others(list, path)),
    decreases list.len(),
{
    let keep = |record: RecordView| !paths::same_path(record.path, path);
    reveal(Seq::filter);
    if list.len() > 0 {
        let shorter = list.drop_last();
        let last = list.last();
        others_facts(shorter, path);
        assert(list =~= shorter.push(last));
        shorter.lemma_filter_push(last, keep);
        let before = others(shorter, path);
        let after = others(list, path);
        assert forall|record: RecordView| #[trigger]
            after.contains(record) <==> list.contains(record) && !paths::same_path(
                record.path,
                path,
            ) by {
            assert(list.contains(record) <==> shorter.contains(record) || record == last) by {
                if list.contains(record) {
                    let i = choose|i: int| 0 <= i < list.len() && list[i] == record;
                    if i < shorter.len() {
                        assert(shorter[i] == record);
                    }
                }
                if shorter.contains(record) {
                    let i = choose|i: int| 0 <= i < shorter.len() && shorter[i] == record;
                    assert(list[i] == record);
                }
                assert(list[list.len() - 1] == last);
            }
            if keep(last) {
                assert(after == before.push(last));
                assert(after.contains(record) <==> before.contains(record) || record == last) by {
                    if after.contains(record) {
                        let i = choose|i: int| 0 <= i < after.len() && after[i] == record;
                        if i < before.len() {
                            assert(before[i] == record);
                        }
                    }
                    if before.contains(record) {
                        let i = choose|i: int| 0 <= i < before.len() && before[i] == record;
                        assert(after[i] == record);
                    }
                    assert(after[after.len() - 1] == last);
                }
            }
        }
        if distinct_paths(list) {
            assert forall|i: int, j: int| 0 <= i < j < shorter.len() implies !paths::same_path(
                #[trigger] shorter[i].path,
                #[trigger] shorter[j].path,
            ) by {
                assert(!paths::same_path(list[i].path, list[j].path));
            }
            if keep(last) {
                assert forall|i: int, j: int| 0 <= i < j < after.len() implies !paths::same_path(
                    #[trigger] after[i].path,
                    #[trigger] after[j].path,
                ) by {
                    if j < before.len() {
                        assert(!paths::same_path(before[i].path, before[j].path));
                    } else {
                        assert(others(shorter, path).contains(before[i]));
                        let m = choose|m: int| 0 <= m < shorter.len() && shorter[m] == before[i];
                        assert(!paths::same_path(list[m].path, list[list.len() - 1].path));
                    }
                }
            }
        }
    }
}

/// After a launch, the list has exactly one record for the path, with the time of the launch;
/// it has lost no other record and gained none.
pub proof fn launch_is_remembered(list: Seq<RecordView>, path: Seq<u8>, last_used_ms: u64)
    ensures
        upserted(list, path, last_used_ms).contains(RecordView { path, last_used_ms }),
        forall|record: RecordView| #[trigger]
            upserted(list, path, last_used_ms).contains(record) && paths::same_path(
                record.path,
                path,
            ) ==> record == (RecordView { path, last_used_ms }),
        forall|record: RecordView|
            !paths::same_path(record.path, path) ==> (#[trigger] upserted(
                list,
                path,
                last_used_ms,
            ).contains(record) <==> list.contains(record)),
        is_newest_first(upserted(list, path, last_used_ms)),
{
    let new = RecordView { path, last_used_ms };
    let kept = others(list, path);
    let all = kept.push(new);
    others_facts(list, path);
    newest_first_is_ordered(all);
    assert forall|record: RecordView| #[trigger]
        upserted(list, path, last_used_ms).contains(record) <==> kept.contains(record) || record
            == new by {
        newest_first_contains(all, record);
        if all.contains(record) {
            let i = choose|i: int| 0 <= i < all.len() && all[i] == record;
            if i < kept.len() {
                assert(kept[i] == record);
            }
        }
        if kept.contains(record) {
            let i = choose|i: int| 0 <= i < kept.len() && kept[i] == record;
            assert(all[i] == record);
        }
        assert(all[all.len() - 1] == new);
    }
}

/// A launch keeps the paths of the list distinct.
pub proof fn launch_keeps_paths_distinct(list: Seq<RecordView>, path: Seq<u8>, last_used_ms: u64)
    requires
        distinct_paths(list),
    ensures
        distinct_paths(upserted(list, path, last_used_ms)),
{
    let new = RecordView { path, last_used_ms };
    let kept = others(list, path);
    let all = kept.push(new);
    others_facts(list, path);
    assert forall|i: int, j: int| 0 <= i < j < all.len() implies !paths::same_path(
        #[trigger] all[i].path,
        #[trigger] all[j].path,
    ) by {
        if j < kept.len() {
            assert(!paths::same_path(kept[i].path, kept[j].path));
        } else {
            assert(kept.contains(kept[i]));
        }
    }
    newest_first_keeps_distinct(all);
}

/// A launch of an absolute path keeps the paths of the list absolute.
pub proof fn launch_keeps_paths_absolute(list: Seq<RecordView>, path: Seq<u8>, last_used_ms: u64)
    requires
        absolute_paths(list),
        paths::absolute(path),
    ensures
        absolute_paths(upserted(list, path, last_used_ms)),
{
    let result = upserted(list, path, last_used_ms);
    launch_is_remembered(list, path, last_used_ms);
    assert forall|i: int| 0 <= i < result.len() implies paths::absolute(
        #[trigger] result[i].path,
    ) by {
        assert(result.contains(result[i]));
        if !paths::same_path(result[i].path, path) {
            let k = choose|k: int| 0 <= k < list.len() && list[k] == result[i];
            assert(paths::absolute(list[k].path));
        }
    }
}

/// A launch that is later than all others comes first.
pub proof fn latest_launch_comes_first(list: Seq<RecordView>, path: Seq<u8>, last_used_ms: u64)
    requires
        forall|i: int|
            0 <= i < list.len() && !paths::same_path(list[i].path, path) ==> (
            #[trigger] list[i]).last_used_ms < last_used_ms,
    ensures
        upserted(list, path, last_used_ms).len() > 0,
        upserted(list, path, last_used_ms)[0] == (RecordView { path, last_used_ms }),
{
    let new = RecordView { path, last_used_ms };
    let result = upserted(list, path, last_used_ms);
    launch_is_remembered(list, path, last_used_ms);
    let k = choose|k: int| 0 <= k < result.len() && result[k] == new;
    if k != 0 {
        assert(result.contains(result[0]));
        assert(!record_before(result[k], result[0]));
        if paths::same_path(result[0].path, path) {
            assert(result[0] == new);
        } else {
            assert(list.contains(result[0]));
            let m = choose|m: int| 0 <= m < list.len() && list[m] == result[0];
            assert(list[m].last_used_ms < last_used_ms);
        }
    }
}

/// Of several launches of one workspace only the last counts.
pub proof fn last_launch_counts(list: Seq<RecordView>, path: Seq<u8>, first: u64, second: u64)
    requires
        distinct_paths(list),
    ensures
        upserted(upserted(list, path, first), path, second) == upserted(list, path, second),
{
    let once = upserted(list, path, first);
    let twice = upserted(once, path, second);
    let direct = upserted(list, path, second);
    launch_keeps_paths_distinct(list, path, first);
    launch_keeps_paths_distinct(once, path, second);
    launch_keeps_paths_distinct(list, path, second);
    launch_is_remembered(list, path, first);
    launch_is_remembered(once, path, second);
    launch_is_remembered(list, path, second);
    assert forall|record: RecordView| twice.contains(record) <==> direct.contains(record) by {
        if !paths::same_path(record.path, path) {
            assert(once.contains(record) <==> list.contains(record));
        }
    }
    same_content_same_order(twice, direct);
}

/// Launches of two workspaces can be recorded in either order.
pub proof fn launches_commute(list: Seq<RecordView>, a: Seq<u8>, b: Seq<u8>, at_a: u64, at_b: u64)
    requires
        distinct_paths(list),
        !paths::same_path(a, b),
    ensures
        upserted(upserted(list, a, at_a), b, at_b) == upserted(upserted(list, b, at_b), a, at_a),
{
    let first_a = upserted(list, a, at_a);
    let first_b = upserted(list, b, at_b);
    let ab = upserted(first_a, b, at_b);
    let ba = upserted(first_b, a, at_a);
    launch_keeps_paths_distinct(list, a, at_a);
    launch_keeps_paths_distinct(list, b, at_b);
    launch_keeps_paths_distinct(first_a, b, at_b);
    launch_keeps_paths_distinct(first_b, a, at_a);
    launch_is_remembered(list, a, at_a);
    launch_is_remembered(list, b, at_b);
    launch_is_remembered(first_a, b, at_b);
    launch_is_remembered(first_b, a, at_a);
    assert forall|record: RecordView| ab.contains(record) <==> ba.contains(record) by {
        let in_a = paths::same_path(record.path, a);
        let in_b = paths::same_path(record.path, b);
        assert(!(in_a && in_b));
        if !in_a && !in_b {
            assert(first_a.contains(record) <==> list.contains(record));
            assert(first_b.contains(record) <==> list.contains(record));
        } else if in_a {
            assert(ab.contains(record) <==> first_a.contains(record));
        } else {
            assert(ba.contains(record) <==> first_b.contains(record));
        }
    }
    same_content_same_order(ab, ba);
}

/// Ordered lists with distinct paths and the same records are the same.
pub proof fn same_content_same_order(a: Seq<RecordView>, b: Seq<RecordView>)
    requires
        is_newest_first(a),
        is_newest_first(b),
        distinct_paths(a),
        distinct_paths(b),
        forall|record: RecordView| a.contains(record) <==> b.contains(record),
    ensures
        a == b,
{
    broadcast use vstd::seq_lib::group_to_multiset_ensures;

    assert(a.no_duplicates()) by {
        assert forall|i: int, j: int| 0 <= i < a.len() && 0 <= j < a.len() && i != j implies a[i]
            != a[j] by {
            assert(!paths::same_path(a[i].path, a[j].path) || !paths::same_path(
                a[j].path,
                a[i].path,
            ));
        }
    }
    assert(b.no_duplicates()) by {
        assert forall|i: int, j: int| 0 <= i < b.len() && 0 <= j < b.len() && i != j implies b[i]
            != b[j] by {
            assert(!paths::same_path(b[i].path, b[j].path) || !paths::same_path(
                b[j].path,
                b[i].path,
            ));
        }
    }
    a.lemma_multiset_has_no_duplicates();
    b.lemma_multiset_has_no_duplicates();
    assert forall|record: RecordView| a.to_multiset().count(record) == b.to_multiset().count(
        record,
    ) by {
        assert(a.contains(record) <==> a.to_multiset().count(record) > 0);
        assert(b.contains(record) <==> b.to_multiset().count(record) > 0);
        if a.contains(record) {
            assert(a.to_multiset().contains(record) && b.to_multiset().contains(record));
        }
    }
    assert(a.to_multiset() =~= b.to_multiset());
    order_is_unique(a, b);
}

/// A record is its path and its time, and a list of records is the records in their order.
pub proof fn views_are_faithful(record: WorkspaceRecord, list: Seq<WorkspaceRecord>, i: int)
    ensures
        record@.path == record.path@,
        record@.last_used_ms == record.last_used_ms,
        record_views(list).len() == list.len(),
        0 <= i < list.len() ==> record_views(list)[i].path == list[i].path@
            && record_views(list)[i].last_used_ms == list[i].last_used_ms,
{
}

/// A record comes before another if and only if it was used later, or at the same time and its path
/// comes before the other's.
pub proof fn later_use_comes_first(a: RecordView, b: RecordView)
    ensures
        a.last_used_ms > b.last_used_ms ==> record_before(a, b) && !record_before(b, a),
        a.last_used_ms == b.last_used_ms ==> (record_before(a, b) <==> paths::path_before(
            a.path,
            b.path,
        )),
{
}

/// In a list that is newest first, of two records the one that stands first was not used earlier;
/// where both were used at the same time, the second does not have the earlier path, and where no
/// path is there twice, the first has it.
pub proof fn newest_first_lists_by_time_then_path(list: Seq<RecordView>, i: int, j: int)
    requires
        is_newest_first(list),
        0 <= i < j < list.len(),
    ensures
        list[i].last_used_ms >= list[j].last_used_ms,
        list[i].last_used_ms == list[j].last_used_ms ==> !paths::path_before(
            list[j].path,
            list[i].path,
        ),
        distinct_paths(list) && list[i].last_used_ms == list[j].last_used_ms
            ==> paths::path_before(list[i].path, list[j].path),
        distinct_paths(list) ==> !paths::same_path(list[i].path, list[j].path),
{
    record_order_facts(list[i], list[j], list[i]);
    assert(!record_before(list[j], list[i]));
    if distinct_paths(list) {
        assert(!paths::same_path(list[i].path, list[j].path));
    }
}

/// A list of which every two records are in order by time, then path, is newest first.
pub proof fn lists_by_time_then_path_are_newest_first(list: Seq<RecordView>)
    requires
        forall|i: int, j: int|
            0 <= i < j < list.len() ==> {
                ||| (#[trigger] list[i]).last_used_ms > (#[trigger] list[j]).last_used_ms
                ||| list[i].last_used_ms == list[j].last_used_ms && !paths::path_before(
                    list[j].path,
                    list[i].path,
                )
            },
    ensures
        is_newest_first(list),
{
    assert forall|i: int, j: int| 0 <= i < j < list.len() implies !record_before(
        list[j],
        list[i],
    ) by {
        let a = list[i];
        let b = list[j];
        assert(a.last_used_ms > b.last_used_ms || a.last_used_ms == b.last_used_ms
            && !paths::path_before(b.path, a.path));
    }
}

/// Sorting gives the same records, each as often, by time and then path; where it leaves a choice,
/// records of one path and time keep their order.
pub proof fn sorting_rearranges_by_time_then_path(list: Seq<RecordView>, i: int, j: int)
    requires
        0 <= i < j < list.len(),
    ensures
        newest_first(list).len() == list.len(),
        newest_first(list).to_multiset() == list.to_multiset(),
        newest_first(list)[i].last_used_ms >= newest_first(list)[j].last_used_ms,
        newest_first(list)[i].last_used_ms == newest_first(list)[j].last_used_ms
            ==> !paths::path_before(newest_first(list)[j].path, newest_first(list)[i].path),
{
    newest_first_is_ordered(list);
    newest_first_keeps_records(list);
    newest_first_contains(list, list[i]);
    newest_first_lists_by_time_then_path(newest_first(list), i, j);
}

/// Records tie where they were used at the same time and neither path comes before the other.
pub proof fn ties_are_of_time_and_path(record: RecordView, other: RecordView)
    ensures
        tied_with(record)(other) <==> {
            &&& record.last_used_ms == other.last_used_ms
            &&& !paths::path_before(record.path, other.path)
            &&& !paths::path_before(other.path, record.path)
        },
{
}

/// A launch gives exactly the records of other paths, each as often as before, and its own; records
/// that tie keep their order.
pub proof fn launch_replaces_the_records_of_its_path(
    list: Seq<RecordView>,
    path: Seq<u8>,
    last_used_ms: u64,
    record: RecordView,
)
    ensures
        upserted(list, path, last_used_ms).filter(tied_with(record)) == list.filter(
            |record: RecordView| !paths::same_path(record.path, path),
        ).push(RecordView { path, last_used_ms }).filter(tied_with(record)),
        upserted(list, path, last_used_ms).to_multiset() == list.filter(
            |record: RecordView| !paths::same_path(record.path, path),
        ).to_multiset().insert(RecordView { path, last_used_ms }),
        is_newest_first(upserted(list, path, last_used_ms)),
{
    broadcast use vstd::seq_lib::group_to_multiset_ensures;

    let new = RecordView { path, last_used_ms };
    let kept = list.filter(|record: RecordView| !paths::same_path(record.path, path));
    assert(others(list, path) =~= kept);
    newest_first_keeps_records(kept.push(new));
    newest_first_is_ordered(kept.push(new));
    newest_first_is_stable(kept.push(new), record);
}

} // verus!
