//! Paths, their order, and the names that are derived from them.

use std::cmp::Ordering;
use std::path::Path;

use workspaces::default_workspaces_path;
use workspaces::names::{lock_path, push_decimal, temporary_path};
use workspaces::paths::{join, parent, relate_paths, with_file_name, Relation};
use workspaces::recording::{now_millis, SinceEpoch};
use workspaces::records::{sort_records, upsert};
use workspaces::{RegistryError, WorkspaceRecord};

const SAMPLES: [&str; 30] = [
    "", "/", "//", ".", "..", "./", "/.", "/..", "a", "a/", "/a", "//a", "///a//", "a/b", "a//b",
    "a/./b", "./a", "./a/b", "/a/b", "/a/b/", "/a/b/.", "/a-b", "/a/..", "../a", "..a", "/a.b/c",
    "/a/b/c", ".a", "a/.", "/ab",
];

fn relation_of(order: Ordering) -> Relation {
    match order {
        Ordering::Less => Relation::Before,
        Ordering::Equal => Relation::Same,
        Ordering::Greater => Relation::After,
    }
}

#[test]
fn paths_are_compared_by_components() {
    for a in SAMPLES {
        for b in SAMPLES {
            assert_eq!(
                relate_paths(a.as_bytes(), b.as_bytes()),
                relation_of(Path::new(a).cmp(Path::new(b))),
                "{a:?} {b:?}"
            );
        }
    }
    assert_eq!(relate_paths(b"/a/b", b"/a-b"), Relation::Before);
    assert_eq!(relate_paths(b"/a//b/", b"/a/b"), Relation::Same);
}

#[test]
fn parents_are_found() {
    for path in SAMPLES {
        let expected = Path::new(path).parent().map(|p| p.to_str().unwrap().as_bytes().to_vec());
        assert_eq!(parent(path.as_bytes()), expected, "{path:?}");
    }
    assert_eq!(parent(b"/state/workspaces.json"), Some(b"/state".to_vec()));
    assert_eq!(parent(b"/"), None);
}

#[test]
fn names_are_joined() {
    for base in SAMPLES {
        for name in SAMPLES {
            let expected = Path::new(base).join(name);
            assert_eq!(
                join(base.as_bytes(), name.as_bytes()),
                expected.to_str().unwrap().as_bytes(),
                "{base:?} {name:?}"
            );
        }
    }
}

#[test]
fn file_names_are_replaced() {
    for path in SAMPLES {
        let expected = Path::new(path).with_file_name("x.json");
        assert_eq!(
            with_file_name(path.as_bytes(), b"x.json"),
            expected.to_str().unwrap().as_bytes(),
            "{path:?}"
        );
    }
}

#[test]
fn temporary_files_have_their_own_names() {
    assert_eq!(
        temporary_path(b"/state/workspaces.json", 4242, 1),
        b"/state/.workspaces.tmp-4242-1".to_vec()
    );
    assert_ne!(temporary_path(b"/s/w", 1, 11), temporary_path(b"/s/w", 11, 1));
    assert_eq!(lock_path(b"/state"), b"/state/workspaces.lock".to_vec());
}

#[test]
fn numbers_are_spelled_in_decimal() {
    for n in [0, 7, 10, 19, 100, 4294967296, u64::MAX] {
        let mut digits = Vec::new();
        push_decimal(&mut digits, n);
        assert_eq!(digits, n.to_string().as_bytes());
    }
}

#[test]
fn default_path_prefers_the_state_home() {
    let some = |text: &str| Some(text.as_bytes().to_vec());
    assert_eq!(
        default_workspaces_path(some("/x"), some("/h")).unwrap(),
        b"/x/open-agent-view/workspaces.json"
    );
    assert_eq!(
        default_workspaces_path(some(""), some("/h")).unwrap(),
        b"open-agent-view/workspaces.json"
    );
    assert_eq!(
        default_workspaces_path(None, some("/h/")).unwrap(),
        b"/h/.local/state/open-agent-view/workspaces.json"
    );
    assert_eq!(default_workspaces_path(None, None), Err(RegistryError::HomeNotSet));
}

fn record(path: &str, last_used_ms: u64) -> WorkspaceRecord {
    WorkspaceRecord { path: path.as_bytes().to_vec(), last_used_ms }
}

#[test]
fn records_are_sorted_newest_first_then_by_path() {
    let mut records = vec![
        record("/a-b", 5),
        record("/c", 9),
        record("/a/b", 5),
        record("/z", 10),
        record("/b", 5),
    ];
    sort_records(&mut records);
    assert_eq!(
        records,
        vec![
            record("/z", 10),
            record("/c", 9),
            record("/a/b", 5),
            record("/a-b", 5),
            record("/b", 5),
        ]
    );
}

#[test]
fn sorting_keeps_ties_in_order() {
    let mut records = vec![record("/a/", 1), record("/b", 2), record("/a", 1), record("/a/.", 1)];
    sort_records(&mut records);
    assert_eq!(
        records,
        vec![record("/b", 2), record("/a/", 1), record("/a", 1), record("/a/.", 1)]
    );
}

#[test]
fn launches_replace_records_of_the_same_path() {
    let list = vec![record("/b", 7), record("/a//x/", 3)];
    assert_eq!(upsert(list, b"/a/x", 8), vec![record("/a/x", 8), record("/b", 7)]);
    assert_eq!(upsert(Vec::new(), b"/a", 1), vec![record("/a", 1)]);
    assert_eq!(
        upsert(vec![record("/b", 7)], b"/a", 1),
        vec![record("/b", 7), record("/a", 1)]
    );
}

#[test]
fn clock_readings_are_milliseconds() {
    assert_eq!(now_millis(None), 0);
    let time = |seconds, nanoseconds| Some(SinceEpoch { seconds, nanoseconds });
    assert_eq!(now_millis(time(1, 999_999)), 1000);
    assert_eq!(now_millis(time(1, 1_000_000)), 1001);
    assert_eq!(
        now_millis(time(u64::MAX, 999_999_999)),
        std::time::Duration::new(u64::MAX, 999_999_999).as_millis() as u64
    );
}
