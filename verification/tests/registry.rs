//! The procedures against a small file system in memory.

use std::collections::BTreeMap;

use serde_json::Value;
use workspaces::protocol::{DIRECTORY_MODE, FILE_MODE};
use workspaces::{
    validate_workspace_selection, Access, Action, FileFacts, IoFailure, Loading, Place, Recording,
    RegistryDocument, RegistryError, Reply, SelectionError, SinceEpoch, WorkspaceRecord,
    WorkspaceRegistry,
};

const USER: u32 = 1000;

#[derive(Clone, Debug, PartialEq)]
enum Kind {
    Directory,
    File(String),
    Link(String),
}

#[derive(Clone, Debug, PartialEq)]
struct Node {
    kind: Kind,
    owner: u32,
    mode: u32,
}

#[derive(Clone, Debug)]
struct World {
    nodes: BTreeMap<String, Node>,
    log: Vec<Action>,
    fail: Option<Action>,
    sequence: u64,
    bare: bool,
}

fn text(path: &[u8]) -> String {
    String::from_utf8(path.to_vec()).unwrap()
}

fn bytes(path: &str) -> Vec<u8> {
    path.as_bytes().to_vec()
}

fn failure(detail: &str, not_found: bool) -> IoFailure {
    IoFailure { not_found, detail: detail.to_string() }
}

fn encode(document: &RegistryDocument) -> String {
    let entries: Vec<String> = document
        .workspaces
        .iter()
        .map(|record| {
            format!(
                "    {{\n      \"path\": {},\n      \"last_used_ms\": {}\n    }}",
                Value::from(text(&record.path)),
                record.last_used_ms
            )
        })
        .collect();
    format!(
        "{{\n  \"version\": {},\n  \"workspaces\": [\n{}\n  ]\n}}",
        document.version,
        entries.join(",\n")
    )
}

fn decode(input: &str) -> Reply {
    let value: Value = match serde_json::from_str(input) {
        Ok(value) => value,
        Err(error) => return Reply::Malformed(error.to_string()),
    };
    let version = value["version"].as_u64();
    let entries = value["workspaces"].as_array();
    let (version, entries) = match (version, entries) {
        (Some(version), Some(entries)) => (version, entries),
        _ => return Reply::Malformed("missing field".to_string()),
    };
    let mut workspaces = Vec::new();
    for entry in entries {
        workspaces.push(WorkspaceRecord {
            path: bytes(entry["path"].as_str().unwrap()),
            last_used_ms: entry["last_used_ms"].as_u64().unwrap(),
        });
    }
    Reply::Document(RegistryDocument { version: version as u32, workspaces })
}

impl World {
    fn new() -> World {
        World { nodes: BTreeMap::new(), log: Vec::new(), fail: None, sequence: 1, bare: false }
    }

    fn with_state() -> World {
        let mut world = World::new();
        world.put("/state", Kind::Directory, DIRECTORY_MODE);
        world
    }

    fn put(&mut self, path: &str, kind: Kind, mode: u32) {
        self.nodes.insert(path.to_string(), Node { kind, owner: USER, mode });
    }

    fn put_registry(&mut self, input: &str) {
        self.put("/state/workspaces.json", Kind::File(input.to_string()), FILE_MODE);
    }

    fn resolve(&self, path: &str) -> Option<String> {
        let mut names: Vec<&str> = Vec::new();
        for name in path.split('/') {
            match name {
                "" | "." => {}
                ".." => {
                    names.pop();
                }
                _ => names.push(name),
            }
        }
        let plain = format!("/{}", names.join("/"));
        match self.nodes.get(&plain) {
            Some(Node { kind: Kind::Link(target), .. }) => self.resolve(target),
            Some(_) => Some(plain),
            None => None,
        }
    }

    fn inspect(&self, path: &str) -> Reply {
        match self.nodes.get(path) {
            None => Reply::Failed(failure("No such file or directory", true)),
            Some(node) => Reply::Facts(FileFacts {
                symlink: matches!(node.kind, Kind::Link(_)),
                directory: matches!(node.kind, Kind::Directory),
                regular: matches!(node.kind, Kind::File(_)),
                access: if self.bare {
                    None
                } else {
                    Some(Access { owner: node.owner, user: USER, mode: 0o100000 | node.mode })
                },
            }),
        }
    }

    fn append(&mut self, path: &str, more: &str) {
        match self.nodes.get_mut(path) {
            Some(Node { kind: Kind::File(content), .. }) => content.push_str(more),
            _ => panic!("no open file"),
        }
    }

    /// Performs an action; `document` is what is to be written.
    fn perform(
        &mut self,
        action: Action,
        path: &dyn Fn(Place) -> String,
        document: Option<RegistryDocument>,
    ) -> Reply {
        self.log.push(action);
        if self.fail == Some(action) {
            return if action == Action::ReadRegistry {
                Reply::Unreadable(failure("injected", false))
            } else {
                Reply::Failed(failure("injected", false))
            };
        }
        match action {
            Action::Inspect(place) => self.inspect(&path(place)),
            Action::TestDirectory => {
                Reply::Existence(self.resolve(&path(Place::Directory)).is_some())
            }
            Action::CreateDirectory => {
                self.put(&path(Place::Directory), Kind::Directory, 0o755);
                Reply::Done
            }
            Action::SetDirectoryMode(mode) => {
                self.nodes.get_mut(&path(Place::Directory)).unwrap().mode = mode;
                Reply::Done
            }
            Action::ReadRegistry => match self.nodes.get(&path(Place::Registry)) {
                Some(Node { kind: Kind::File(content), .. }) => decode(content),
                _ => Reply::Unreadable(failure("not a file", false)),
            },
            Action::Resolve(place) => match self.resolve(&path(place)) {
                Some(found) => Reply::Resolved(bytes(&found)),
                None => Reply::Failed(failure("No such file or directory", true)),
            },
            Action::OpenLock(mode) => {
                let lock = path(Place::Lock);
                if !self.nodes.contains_key(&lock) {
                    self.put(&lock, Kind::File(String::new()), mode);
                }
                Reply::Done
            }
            Action::TakeLock => Reply::Done,
            Action::ReleaseLock => Reply::Done,
            Action::NameTemporary => {
                self.sequence += 1;
                Reply::Unique(77, self.sequence - 1)
            }
            Action::CreateTemporary(mode) => {
                let temporary = path(Place::Temporary);
                assert!(!self.nodes.contains_key(&temporary));
                self.put(&temporary, Kind::File(String::new()), mode);
                Reply::Done
            }
            Action::WriteDocument => {
                self.append(&path(Place::Temporary), &encode(&document.unwrap()));
                Reply::Done
            }
            Action::WriteLineEnd => {
                self.append(&path(Place::Temporary), "\n");
                Reply::Done
            }
            Action::SyncTemporary => Reply::Done,
            Action::ReplaceRegistry => {
                let node = self.nodes.remove(&path(Place::Temporary)).unwrap();
                self.nodes.insert(path(Place::Registry), node);
                Reply::Done
            }
            Action::SyncDirectory => Reply::Done,
            Action::RemoveTemporary => {
                self.nodes.remove(&path(Place::Temporary));
                Reply::Done
            }
            Action::Adopt => Reply::Done,
        }
    }

    fn load(&mut self, path: &str) -> Result<WorkspaceRegistry, RegistryError> {
        let mut loading: Loading = WorkspaceRegistry::load(bytes(path));
        while let Some(action) = loading.next() {
            let reply =
                self.perform(action, &|place| text(loading.path_of(place).unwrap()), None);
            assert!(action.accepts(&reply));
            loading = loading.resume(reply);
        }
        loading.finish()
    }

    fn run(
        &mut self,
        registry: &mut WorkspaceRegistry,
        recording: Recording,
    ) -> Result<String, RegistryError> {
        let mut recording = recording;
        while let Some(action) = recording.next() {
            if action == Action::Adopt {
                registry.adopt(&recording);
            }
            let reply = self.perform(
                action,
                &|place| text(recording.path_of(place).unwrap()),
                recording.document(),
            );
            assert!(action.accepts(&reply));
            recording = recording.resume(reply);
        }
        recording.finish().map(|path| text(&path))
    }

    fn record(
        &mut self,
        registry: &mut WorkspaceRegistry,
        path: &str,
        ms: u64,
    ) -> Result<String, RegistryError> {
        let recording = registry.record_launch_at(bytes(path), ms);
        self.run(registry, recording)
    }

    fn validate(&mut self, path: &str) -> Result<String, RegistryError> {
        let mut selecting = validate_workspace_selection(bytes(path));
        while let Some(action) = selecting.next() {
            let reply =
                self.perform(action, &|place| text(selecting.path_of(place).unwrap()), None);
            selecting = selecting.resume(reply);
        }
        selecting.finish().map(|path| text(&path))
    }
}

fn paths(registry: &WorkspaceRegistry) -> Vec<String> {
    registry.list().into_iter().map(|record| text(&record.path)).collect()
}

fn world_with_workspaces() -> World {
    let mut world = World::with_state();
    world.put("/work/first", Kind::Directory, 0o755);
    world.put("/work/second", Kind::Directory, 0o755);
    world.put("/work/third", Kind::Directory, 0o755);
    world.put("/work/file", Kind::File(String::new()), 0o644);
    world
}

#[test]
fn persists_canonical_workspaces_newest_first_with_private_state() {
    let mut world = world_with_workspaces();
    let mut registry = world.load("/state/workspaces.json").unwrap();

    world.record(&mut registry, "/work/first/.", 10).unwrap();
    world.record(&mut registry, "/work/second", 20).unwrap();
    world.record(&mut registry, "/work/first", 20).unwrap();

    assert_eq!(paths(&registry), vec!["/work/first".to_string(), "/work/second".to_string()]);
    assert_eq!(world.nodes["/state/workspaces.json"].mode, FILE_MODE);
    let restored = world.load(&text(registry.path())).unwrap();
    assert_eq!(restored.list().len(), 2);
    assert_eq!(restored.list(), registry.list());
}

#[test]
fn rejects_relative_missing_duplicate_and_malformed_entries() {
    let mut world = World::with_state();
    world.put_registry(r#"{"version":1,"workspaces":[{"path":"relative","last_used_ms":1}]}"#);
    assert!(world.load("/state/workspaces.json").is_err());

    assert!(world.validate("/definitely/not/a/real/workspace").is_err());
}

#[test]
fn rejects_symlinked_or_public_state() {
    let mut world = World::with_state();
    world.put(
        "/state/target.json",
        Kind::File(r#"{"version":1,"workspaces":[]}"#.to_string()),
        FILE_MODE,
    );
    world.put("/state/workspaces.json", Kind::Link("/state/target.json".to_string()), 0o777);
    assert!(world.load("/state/workspaces.json").is_err());

    world.put("/state/public", Kind::Directory, 0o755);
    assert!(world.load("/state/public/workspaces.json").is_err());
}

#[test]
fn relative_entry_is_refused_with_its_path() {
    let mut world = World::with_state();
    world.put_registry(r#"{"version":1,"workspaces":[{"path":"relative","last_used_ms":1}]}"#);
    assert_eq!(
        world.load("/state/workspaces.json").unwrap_err(),
        RegistryError::InvalidEntry(bytes("relative"), SelectionError::NotAbsolute)
    );
    assert!(!world.log.contains(&Action::Resolve(Place::Entry(0))));
}

#[test]
fn disappeared_entries_are_left_out_of_the_list() {
    let mut world = World::with_state();
    world.put("/", Kind::Directory, 0o755);
    world.put_registry(
        r#"{"version":1,"workspaces":[
            {"path":"/definitely/not/a/real/workspace","last_used_ms":2},
            {"path":"/","last_used_ms":1}]}"#,
    );
    let registry = world.load("/state/workspaces.json").unwrap();
    assert_eq!(registry.list(), vec![WorkspaceRecord { path: bytes("/"), last_used_ms: 1 }]);
    assert_eq!(
        world.log,
        vec![
            Action::Inspect(Place::Directory),
            Action::TestDirectory,
            Action::Inspect(Place::Directory),
            Action::Inspect(Place::Registry),
            Action::Inspect(Place::Registry),
            Action::ReadRegistry,
            Action::Resolve(Place::Entry(0)),
            Action::Resolve(Place::Entry(1)),
            Action::Inspect(Place::Resolved),
        ]
    );
}

#[test]
fn registry_of_disappeared_entries_loads_empty() {
    let mut world = World::with_state();
    world.put_registry(
        r#"{"version":1,"workspaces":[{"path":"/gone","last_used_ms":2},
            {"path":"/gone/too","last_used_ms":1}]}"#,
    );
    assert!(world.load("/state/workspaces.json").unwrap().list().is_empty());
}

#[test]
fn entries_after_a_disappeared_one_are_still_tested() {
    let mut world = world_with_workspaces();
    world.put_registry(
        r#"{"version":1,"workspaces":[{"path":"/gone","last_used_ms":2},
            {"path":"relative","last_used_ms":1}]}"#,
    );
    assert_eq!(
        world.load("/state/workspaces.json").unwrap_err(),
        RegistryError::InvalidEntry(bytes("relative"), SelectionError::NotAbsolute)
    );
}

#[test]
fn recording_keeps_unavailable_entries_in_the_file() {
    let mut world = world_with_workspaces();
    let mut registry = world.load("/state/workspaces.json").unwrap();
    world.record(&mut registry, "/work/first", 1).unwrap();
    world.record(&mut registry, "/work/second", 2).unwrap();
    world.nodes.remove("/work/second");
    assert_eq!(
        paths(&world.load("/state/workspaces.json").unwrap()),
        vec!["/work/first".to_string()]
    );
    assert_eq!(world.record(&mut registry, "/work/third", 3).unwrap(), "/work/third");
    assert_eq!(
        paths(&registry),
        vec!["/work/third".to_string(), "/work/first".to_string()]
    );
    assert_eq!(
        world.load("/state/workspaces.json").unwrap().list(),
        registry.list()
    );
    world.put("/work/second", Kind::Directory, 0o755);
    assert_eq!(
        world.load("/state/workspaces.json").unwrap().list(),
        vec![
            WorkspaceRecord { path: bytes("/work/third"), last_used_ms: 3 },
            WorkspaceRecord { path: bytes("/work/second"), last_used_ms: 2 },
            WorkspaceRecord { path: bytes("/work/first"), last_used_ms: 1 },
        ]
    );
}

#[test]
fn launch_of_a_skipped_workspace_replaces_its_record() {
    let mut world = world_with_workspaces();
    world.put_registry(r#"{"version":1,"workspaces":[{"path":"/work/new","last_used_ms":8}]}"#);
    let mut registry = world.load("/state/workspaces.json").unwrap();
    assert!(registry.list().is_empty());
    world.put("/work/new", Kind::Directory, 0o755);
    world.record(&mut registry, "/work/new", 9).unwrap();
    let expected = vec![WorkspaceRecord { path: bytes("/work/new"), last_used_ms: 9 }];
    assert_eq!(registry.list(), expected);
    assert_eq!(world.load("/state/workspaces.json").unwrap().list(), expected);
}

#[test]
fn entry_that_cannot_be_resolved_is_skipped() {
    let mut world = world_with_workspaces();
    world.put_registry(
        r#"{"version":1,"workspaces":[{"path":"/work/first","last_used_ms":2},
            {"path":"/work/second","last_used_ms":1}]}"#,
    );
    world.fail = Some(Action::Resolve(Place::Entry(0)));
    assert_eq!(
        paths(&world.load("/state/workspaces.json").unwrap()),
        vec!["/work/second".to_string()]
    );
}

#[test]
fn order_of_entries_in_the_file_does_not_matter() {
    let entries = [
        r#"{"path":"/work/first","last_used_ms":2}"#,
        r#"{"path":"/gone","last_used_ms":5}"#,
        r#"{"path":"/work/second","last_used_ms":2}"#,
        r#"{"path":"/work/third","last_used_ms":7}"#,
    ];
    for order in [[0, 1, 2, 3], [3, 2, 1, 0], [1, 3, 0, 2]] {
        let mut world = world_with_workspaces();
        let listed: Vec<&str> = order.iter().map(|&index| entries[index]).collect();
        world.put_registry(&format!(
            r#"{{"version":1,"workspaces":[{}]}}"#,
            listed.join(",")
        ));
        assert_eq!(
            paths(&world.load("/state/workspaces.json").unwrap()),
            vec!["/work/third".to_string(), "/work/first".to_string(), "/work/second".to_string()]
        );
    }
}

#[test]
fn loads_change_nothing_but_the_directory() {
    let mut world = world_with_workspaces();
    world.put_registry(
        r#"{"version":1,"workspaces":[{"path":"/gone","last_used_ms":2},
            {"path":"/work/first","last_used_ms":1}]}"#,
    );
    let before = world.nodes.clone();
    world.load("/state/workspaces.json").unwrap();
    assert_eq!(world.nodes, before);
    world.load("/fresh/workspaces.json").unwrap();
    let mut after = before.clone();
    after.insert(
        "/fresh".to_string(),
        Node { kind: Kind::Directory, owner: USER, mode: DIRECTORY_MODE },
    );
    assert_eq!(world.nodes, after);
}

#[test]
fn no_launch_is_lost_between_handles() {
    let mut world = world_with_workspaces();
    world.put("/work/fourth", Kind::Directory, 0o755);
    let mut handles: Vec<WorkspaceRegistry> =
        (0..4).map(|_| world.load("/state/workspaces.json").unwrap()).collect();
    world.record(&mut handles[0], "/work/fourth", 9).unwrap();
    world.record(&mut handles[1], "/work/first", 5).unwrap();
    world.record(&mut handles[2], "/work/second", 7).unwrap();
    world.record(&mut handles[3], "/work/third", 6).unwrap();
    assert_eq!(
        world.load("/state/workspaces.json").unwrap().list(),
        vec![
            WorkspaceRecord { path: bytes("/work/fourth"), last_used_ms: 9 },
            WorkspaceRecord { path: bytes("/work/second"), last_used_ms: 7 },
            WorkspaceRecord { path: bytes("/work/third"), last_used_ms: 6 },
            WorkspaceRecord { path: bytes("/work/first"), last_used_ms: 5 },
        ]
    );
}

#[test]
fn accepted_selection_is_accepted_again_unchanged() {
    let mut world = world_with_workspaces();
    world.put("/alias", Kind::Link("/work/third".to_string()), 0o777);
    let accepted = world.validate("/alias").unwrap();
    assert_eq!(accepted, "/work/third");
    assert_eq!(world.validate(&accepted).unwrap(), accepted);
}

#[test]
fn entry_that_is_no_directory_any_more_is_skipped() {
    let mut world = world_with_workspaces();
    world.put_registry(
        r#"{"version":1,"workspaces":[{"path":"/work/file","last_used_ms":2},
            {"path":"/work/first","last_used_ms":1}]}"#,
    );
    assert_eq!(
        paths(&world.load("/state/workspaces.json").unwrap()),
        vec!["/work/first".to_string()]
    );
}

#[test]
fn repeated_entry_is_refused_although_it_has_disappeared() {
    let mut world = world_with_workspaces();
    world.put_registry(
        r#"{"version":1,"workspaces":[{"path":"/gone","last_used_ms":2},
            {"path":"/gone/","last_used_ms":1}]}"#,
    );
    assert_eq!(world.load("/state/workspaces.json").unwrap_err(), RegistryError::DuplicatePath);
}

#[test]
fn entry_that_is_not_canonical_is_refused() {
    let mut world = world_with_workspaces();
    world.put("/alias", Kind::Link("/work/first".to_string()), 0o777);
    world.put_registry(r#"{"version":1,"workspaces":[{"path":"/alias","last_used_ms":1}]}"#);
    assert_eq!(
        world.load("/state/workspaces.json").unwrap_err(),
        RegistryError::NotCanonical(bytes("/alias"))
    );
}

#[test]
fn entry_spelled_otherwise_is_listed_canonically() {
    let mut world = world_with_workspaces();
    world.put_registry(r#"{"version":1,"workspaces":[{"path":"/work//first/","last_used_ms":1}]}"#);
    let registry = world.load("/state/workspaces.json").unwrap();
    assert_eq!(paths(&registry), vec!["/work/first".to_string()]);
}

#[test]
fn duplicate_entries_are_refused() {
    let mut world = world_with_workspaces();
    world.put_registry(
        r#"{"version":1,"workspaces":[{"path":"/work/first","last_used_ms":2},
            {"path":"/work/second","last_used_ms":3},
            {"path":"/work/first/","last_used_ms":1}]}"#,
    );
    assert_eq!(world.load("/state/workspaces.json").unwrap_err(), RegistryError::DuplicatePath);
}

#[test]
fn malformed_registry_is_refused() {
    let mut world = World::with_state();
    world.put_registry("{");
    assert!(matches!(
        world.load("/state/workspaces.json"),
        Err(RegistryError::MalformedRegistry(_))
    ));
}

#[test]
fn unreadable_registry_is_refused() {
    let mut world = World::with_state();
    world.put_registry(r#"{"version":1,"workspaces":[]}"#);
    world.fail = Some(Action::ReadRegistry);
    assert_eq!(
        world.load("/state/workspaces.json").unwrap_err(),
        RegistryError::CannotReadRegistry(failure("injected", false))
    );
}

#[test]
fn registry_that_cannot_be_inspected_is_refused() {
    let mut world = World::with_state();
    world.fail = Some(Action::Inspect(Place::Registry));
    assert_eq!(
        world.load("/state/workspaces.json").unwrap_err(),
        RegistryError::CannotInspectRegistry(failure("injected", false))
    );
}

#[test]
fn unsupported_version_is_refused() {
    let mut world = World::with_state();
    world.put_registry(r#"{"version":2,"workspaces":[]}"#);
    assert_eq!(
        world.load("/state/workspaces.json").unwrap_err(),
        RegistryError::UnsupportedVersion(2)
    );
}

#[test]
fn missing_registry_loads_empty() {
    let mut world = World::with_state();
    let registry = world.load("/state/workspaces.json").unwrap();
    assert!(registry.list().is_empty());
    assert_eq!(text(registry.path()), "/state/workspaces.json");
}

#[test]
fn registry_without_parent_is_refused() {
    let mut world = World::new();
    assert_eq!(world.load("/").unwrap_err(), RegistryError::NoParent);
    assert_eq!(world.load("").unwrap_err(), RegistryError::NoParent);
    assert!(world.log.is_empty());
}

#[test]
fn missing_directory_is_created_private() {
    let mut world = World::new();
    let registry = world.load("/fresh/workspaces.json").unwrap();
    assert!(registry.list().is_empty());
    assert_eq!(
        world.nodes["/fresh"],
        Node { kind: Kind::Directory, owner: USER, mode: DIRECTORY_MODE }
    );
    assert_eq!(
        world.log,
        vec![
            Action::Inspect(Place::Directory),
            Action::TestDirectory,
            Action::CreateDirectory,
            Action::SetDirectoryMode(0o700),
            Action::Inspect(Place::Directory),
            Action::Inspect(Place::Registry),
        ]
    );
}

#[test]
fn directory_that_cannot_be_created_is_reported() {
    let mut world = World::new();
    world.fail = Some(Action::CreateDirectory);
    assert_eq!(
        world.load("/fresh/workspaces.json").unwrap_err(),
        RegistryError::CannotCreateDirectory(failure("injected", false))
    );
    world.fail = Some(Action::SetDirectoryMode(0o700));
    assert_eq!(
        world.load("/other/workspaces.json").unwrap_err(),
        RegistryError::Io(failure("injected", false))
    );
}

#[test]
fn untrusted_directories_are_refused() {
    let mut world = World::with_state();
    world.put("/link", Kind::Link("/state".to_string()), 0o777);
    assert_eq!(
        world.load("/link/workspaces.json").unwrap_err(),
        RegistryError::Symlinked(Place::Directory)
    );
    world.put("/plain", Kind::File(String::new()), DIRECTORY_MODE);
    assert_eq!(
        world.load("/plain/workspaces.json").unwrap_err(),
        RegistryError::NotADirectory(Place::Directory)
    );
    world.put("/open", Kind::Directory, 0o750);
    assert_eq!(
        world.load("/open/workspaces.json").unwrap_err(),
        RegistryError::WrongMode(Place::Directory, 0o700)
    );
    world.put("/theirs", Kind::Directory, DIRECTORY_MODE);
    world.nodes.get_mut("/theirs").unwrap().owner = 0;
    assert_eq!(
        world.load("/theirs/workspaces.json").unwrap_err(),
        RegistryError::NotOwned(Place::Directory)
    );
    world.fail = Some(Action::Inspect(Place::Directory));
    assert_eq!(
        world.load("/state/workspaces.json").unwrap_err(),
        RegistryError::Io(failure("injected", false))
    );
}

#[test]
fn untrusted_registry_files_are_refused_unread() {
    let mut world = World::with_state();
    world.put("/state/workspaces.json", Kind::Directory, FILE_MODE);
    assert_eq!(
        world.load("/state/workspaces.json").unwrap_err(),
        RegistryError::NotAFile(Place::Registry)
    );
    world.put_registry(r#"{"version":1,"workspaces":[]}"#);
    world.nodes.get_mut("/state/workspaces.json").unwrap().mode = 0o644;
    assert_eq!(
        world.load("/state/workspaces.json").unwrap_err(),
        RegistryError::WrongMode(Place::Registry, 0o600)
    );
    world.put_registry(r#"{"version":1,"workspaces":[]}"#);
    world.nodes.get_mut("/state/workspaces.json").unwrap().owner = 0;
    assert_eq!(
        world.load("/state/workspaces.json").unwrap_err(),
        RegistryError::NotOwned(Place::Registry)
    );
    assert!(!world.log.contains(&Action::ReadRegistry));
}

#[test]
fn platform_without_owners_and_modes_is_accepted() {
    let mut world = world_with_workspaces();
    world.bare = true;
    world.nodes.get_mut("/state").unwrap().mode = 0o777;
    let mut registry = world.load("/state/workspaces.json").unwrap();
    world.record(&mut registry, "/work/first", 1).unwrap();
    assert_eq!(paths(&registry), vec!["/work/first".to_string()]);
}

#[test]
fn recording_performs_its_steps_in_order() {
    let mut world = world_with_workspaces();
    let mut registry = world.load("/state/workspaces.json").unwrap();
    world.log.clear();
    assert_eq!(world.record(&mut registry, "/work/first", 5).unwrap(), "/work/first");
    assert_eq!(
        world.log,
        vec![
            Action::Resolve(Place::Selection),
            Action::Inspect(Place::Resolved),
            Action::Inspect(Place::Lock),
            Action::OpenLock(0o600),
            Action::TakeLock,
            Action::Inspect(Place::Registry),
            Action::Inspect(Place::Directory),
            Action::TestDirectory,
            Action::Inspect(Place::Directory),
            Action::Inspect(Place::Registry),
            Action::NameTemporary,
            Action::CreateTemporary(0o600),
            Action::WriteDocument,
            Action::WriteLineEnd,
            Action::SyncTemporary,
            Action::ReplaceRegistry,
            Action::SyncDirectory,
            Action::Adopt,
            Action::ReleaseLock,
        ]
    );
    assert_eq!(
        world.nodes["/state/workspaces.json"].kind,
        Kind::File(
            "{\n  \"version\": 1,\n  \"workspaces\": [\n    {\n      \"path\": \"/work/first\",\n      \
             \"last_used_ms\": 5\n    }\n  ]\n}\n"
                .to_string()
        )
    );
    assert_eq!(world.nodes["/state/workspaces.lock"].mode, FILE_MODE);
}

#[test]
fn recording_rereads_the_registry_under_the_lock() {
    let mut world = world_with_workspaces();
    let mut ours = world.load("/state/workspaces.json").unwrap();
    let mut theirs = world.load("/state/workspaces.json").unwrap();
    world.record(&mut theirs, "/work/second", 7).unwrap();
    assert!(ours.list().is_empty());
    world.record(&mut ours, "/work/first", 3).unwrap();
    assert_eq!(paths(&ours), vec!["/work/second".to_string(), "/work/first".to_string()]);
}

#[test]
fn selected_link_is_recorded_by_its_target() {
    let mut world = world_with_workspaces();
    world.put("/alias", Kind::Link("/work/third".to_string()), 0o777);
    let mut registry = world.load("/state/workspaces.json").unwrap();
    assert_eq!(world.record(&mut registry, "/alias", 4).unwrap(), "/work/third");
    assert_eq!(
        registry.list(),
        vec![WorkspaceRecord { path: bytes("/work/third"), last_used_ms: 4 }]
    );
}

#[test]
fn refused_selections_touch_nothing() {
    let mut world = world_with_workspaces();
    let mut registry = world.load("/state/workspaces.json").unwrap();
    let before = world.nodes.clone();
    world.log.clear();
    assert_eq!(
        world.record(&mut registry, "work/first", 1).unwrap_err(),
        RegistryError::InvalidSelection(SelectionError::NotAbsolute)
    );
    assert!(world.log.is_empty());
    assert_eq!(
        world.record(&mut registry, "/gone", 1).unwrap_err(),
        RegistryError::InvalidSelection(SelectionError::Missing(failure(
            "No such file or directory",
            true
        )))
    );
    assert_eq!(
        world.record(&mut registry, "/work/file", 1).unwrap_err(),
        RegistryError::InvalidSelection(SelectionError::NotADirectory)
    );
    assert_eq!(world.nodes, before);
    assert!(registry.list().is_empty());
}

#[test]
fn selection_is_validated_without_a_registry_change() {
    let mut world = world_with_workspaces();
    assert_eq!(world.validate("/work/./first/").unwrap(), "/work/first");
    assert_eq!(
        world.validate("relative").unwrap_err(),
        RegistryError::InvalidSelection(SelectionError::NotAbsolute)
    );
    world.fail = Some(Action::Inspect(Place::Resolved));
    assert_eq!(
        world.validate("/work/first").unwrap_err(),
        RegistryError::InvalidSelection(SelectionError::Uninspectable(failure("injected", false)))
    );
    let registry = world_with_workspaces().load("/state/workspaces.json").unwrap();
    let selecting = registry.validate_selection(bytes("relative"));
    assert_eq!(selecting.next(), None);
    assert!(selecting.finish().is_err());
}

#[test]
fn failures_while_writing_keep_the_store_and_remove_the_temporary_file() {
    for action in [
        Action::CreateTemporary(0o600),
        Action::WriteDocument,
        Action::WriteLineEnd,
        Action::SyncTemporary,
        Action::ReplaceRegistry,
    ] {
        let mut world = world_with_workspaces();
        let mut registry = world.load("/state/workspaces.json").unwrap();
        world.record(&mut registry, "/work/first", 1).unwrap();
        let before = world.nodes.clone();
        world.log.clear();
        world.fail = Some(action);
        assert_eq!(
            world.record(&mut registry, "/work/second", 2).unwrap_err(),
            RegistryError::Io(failure("injected", false))
        );
        assert_eq!(world.nodes, before);
        assert_eq!(paths(&registry), vec!["/work/first".to_string()]);
        let count = world.log.len();
        assert_eq!(world.log[count - 3], action);
        assert_eq!(world.log[count - 2], Action::RemoveTemporary);
        assert_eq!(world.log[count - 1], Action::ReleaseLock);
        assert!(!world.log.contains(&Action::Adopt));
    }
}

#[test]
fn failed_flush_of_the_directory_fails_after_the_replacement() {
    let mut world = world_with_workspaces();
    let mut registry = world.load("/state/workspaces.json").unwrap();
    world.fail = Some(Action::SyncDirectory);
    assert!(world.record(&mut registry, "/work/first", 1).is_err());
    assert!(registry.list().is_empty());
    world.fail = None;
    let restored = world.load("/state/workspaces.json").unwrap();
    assert_eq!(paths(&restored), vec!["/work/first".to_string()]);
}

#[test]
fn failed_removal_and_release_change_nothing() {
    let mut world = world_with_workspaces();
    let mut registry = world.load("/state/workspaces.json").unwrap();
    world.fail = Some(Action::ReleaseLock);
    assert_eq!(world.record(&mut registry, "/work/first", 1).unwrap(), "/work/first");
    assert_eq!(paths(&registry), vec!["/work/first".to_string()]);
}

#[test]
fn lock_failures_end_without_release() {
    let mut world = world_with_workspaces();
    let mut registry = world.load("/state/workspaces.json").unwrap();
    for (action, error) in [
        (Action::Inspect(Place::Lock), RegistryError::Io(failure("injected", false))),
        (Action::OpenLock(0o600), RegistryError::Io(failure("injected", false))),
        (Action::TakeLock, RegistryError::CannotLock(failure("injected", false))),
    ] {
        world.log.clear();
        world.fail = Some(action);
        assert_eq!(world.record(&mut registry, "/work/first", 1).unwrap_err(), error);
        assert!(!world.log.contains(&Action::ReleaseLock));
        assert!(!world.log.contains(&Action::Inspect(Place::Registry)));
    }
}

#[test]
fn untrusted_lock_file_is_refused() {
    let mut world = world_with_workspaces();
    let mut registry = world.load("/state/workspaces.json").unwrap();
    world.put("/state/workspaces.lock", Kind::File(String::new()), 0o666);
    assert_eq!(
        world.record(&mut registry, "/work/first", 1).unwrap_err(),
        RegistryError::WrongMode(Place::Lock, 0o600)
    );
    world.put("/state/workspaces.lock", Kind::Link("/state/x".to_string()), 0o600);
    assert_eq!(
        world.record(&mut registry, "/work/first", 1).unwrap_err(),
        RegistryError::NotAFile(Place::Lock)
    );
}

#[test]
fn broken_registry_is_not_overwritten_and_the_lock_is_released() {
    let mut world = world_with_workspaces();
    let mut registry = world.load("/state/workspaces.json").unwrap();
    world.put_registry(r#"{"version":9,"workspaces":[]}"#);
    world.log.clear();
    assert_eq!(
        world.record(&mut registry, "/work/first", 1).unwrap_err(),
        RegistryError::UnsupportedVersion(9)
    );
    assert_eq!(world.log.last(), Some(&Action::ReleaseLock));
    assert!(!world.log.contains(&Action::NameTemporary));
}

#[test]
fn last_launch_of_a_workspace_counts_and_order_of_launches_does_not() {
    let launches = [("/work/first", 5), ("/work/second", 9), ("/work/third", 7)];
    let mut lists = Vec::new();
    for order in [[0, 1, 2], [2, 1, 0], [1, 0, 2]] {
        let mut world = world_with_workspaces();
        let mut registry = world.load("/state/workspaces.json").unwrap();
        world.record(&mut registry, "/work/first", 1).unwrap();
        for index in order {
            let (path, ms) = launches[index];
            world.record(&mut registry, path, ms).unwrap();
        }
        lists.push(registry.list());
    }
    assert_eq!(
        lists[0],
        vec![
            WorkspaceRecord { path: bytes("/work/second"), last_used_ms: 9 },
            WorkspaceRecord { path: bytes("/work/third"), last_used_ms: 7 },
            WorkspaceRecord { path: bytes("/work/first"), last_used_ms: 5 },
        ]
    );
    assert_eq!(lists[0], lists[1]);
    assert_eq!(lists[0], lists[2]);
}

#[test]
fn launch_is_recorded_at_the_time_of_the_clock() {
    let mut world = world_with_workspaces();
    let mut registry = world.load("/state/workspaces.json").unwrap();
    let now = Some(SinceEpoch { seconds: 12, nanoseconds: 345_999_999 });
    let recording = registry.record_launch(bytes("/work/first"), now);
    world.run(&mut registry, recording).unwrap();
    let recording = registry.record_launch(bytes("/work/second"), None);
    world.run(&mut registry, recording).unwrap();
    assert_eq!(
        registry.list(),
        vec![
            WorkspaceRecord { path: bytes("/work/first"), last_used_ms: 12_345 },
            WorkspaceRecord { path: bytes("/work/second"), last_used_ms: 0 },
        ]
    );
}

#[test]
fn temporary_file_and_lock_stand_beside_the_registry() {
    let mut world = world_with_workspaces();
    let registry = world.load("/state/workspaces.json").unwrap();
    let mut recording = registry.record_launch_at(bytes("/work/first"), 1);
    assert_eq!(text(recording.path_of(Place::Lock).unwrap()), "/state/workspaces.lock");
    assert_eq!(recording.path_of(Place::Temporary), None);
    loop {
        let action = recording.next().unwrap();
        let reply = world.perform(action, &|place| text(recording.path_of(place).unwrap()), None);
        recording = recording.resume(reply);
        if action == Action::NameTemporary {
            break;
        }
    }
    assert_eq!(
        text(recording.path_of(Place::Temporary).unwrap()),
        "/state/.workspaces.tmp-77-1"
    );
}

#[test]
fn default_registry_is_found_from_the_environment() {
    let loading = WorkspaceRegistry::load_default(Some(bytes("/xdg")), Some(bytes("/home/me")));
    assert_eq!(
        text(loading.unwrap().path_of(Place::Registry).unwrap()),
        "/xdg/open-agent-view/workspaces.json"
    );
    let loading = WorkspaceRegistry::load_default(None, Some(bytes("/home/me")));
    assert_eq!(
        text(loading.unwrap().path_of(Place::Directory).unwrap()),
        "/home/me/.local/state/open-agent-view"
    );
    assert!(matches!(
        WorkspaceRegistry::load_default(None, None),
        Err(RegistryError::HomeNotSet)
    ));
}

#[test]
fn replies_of_the_wrong_kind_are_not_accepted() {
    assert!(Action::Inspect(Place::Registry).accepts(&Reply::Failed(failure("", false))));
    assert!(!Action::Inspect(Place::Registry).accepts(&Reply::Done));
    assert!(!Action::Adopt.accepts(&Reply::Failed(failure("", false))));
    assert!(!Action::TestDirectory.accepts(&Reply::Done));
    assert!(Action::Resolve(Place::Selection).accepts(&Reply::Resolved(bytes("/a"))));
    assert!(!Action::Resolve(Place::Selection).accepts(&Reply::Resolved(bytes("a"))));
    assert!(Action::ReleaseLock.accepts(&Reply::Failed(failure("", false))));
}

#[test]
fn recording_and_validation_agree_on_a_selection() {
    for path in ["/work/first/.", "/alias", "/gone", "work", "/work/file"] {
        let mut world = world_with_workspaces();
        world.put("/alias", Kind::Link("/work/second".to_string()), 0o777);
        let validated = world.validate(path);
        let mut registry = world.load("/state/workspaces.json").unwrap();
        assert_eq!(world.record(&mut registry, path, 1), validated);
    }
}
