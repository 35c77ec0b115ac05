# workspaces

A private, persistent list of the workspaces that launches have used, newest first, verified with
Verus.

The library under `src/` decides; it never touches the file system. `WorkspaceRegistry::load`,
`validate_selection` and `record_launch_at` start procedures that ask for one action at a time
(inspect a file, take the lock, replace the registry), take the answer, and end with a result.
Contracts are stated over all the answers a procedure can get, so they cover every failure of the
operating system. `app/` performs the actions with `std::fs`, `flock` and JSON.

- `protocol`: actions, replies and errors.
- `paths`, `lexical`, `names`: Unix paths by components, their order, and the registry's files.
- `records`: the order of the list, and what a launch does to it.
- `checks`, `directory`, `locking`, `selection`, `reading`, `writing`: the parts of a procedure.
- `registry`, `recording`: loading the registry and recording a launch.
- `messages`: what is said of an error.
- `laws`: what holds of whole runs, such as that changes happen under the lock, that the registry
  file is replaced whole, and that a failed recording leaves the list alone.
- `contents`: what the registry remembers: which entries a load lists, that their order in the file
  does not matter, that what was recorded is what the next load lists, and that no update is lost.

A stored workspace that has disappeared, cannot be reached or is no directory any more is skipped
when the registry is read. It stays in the file, and is listed again once it can be used. Relative,
non-canonical and repeated entries are refused.

Paths are byte strings with `/` between their components and at the start of absolute ones:
repeated separators, a trailing separator and `.` after the start make no difference. On Unix that
is how paths are; on a platform whose paths start with a prefix, `app/` spells `C:\work` as
`/C:/work` for the library.
