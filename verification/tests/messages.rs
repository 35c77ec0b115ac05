//! The messages of errors.

use workspaces::{IoFailure, Place, RegistryError, SelectionError};

fn failure() -> IoFailure {
    IoFailure { not_found: false, detail: "boom".to_string() }
}

#[test]
fn errors_name_their_subject_and_cause() {
    let cases: Vec<(RegistryError, Vec<&str>)> = vec![
        (RegistryError::NoParent, vec!["workspace registry path has no parent"]),
        (RegistryError::HomeNotSet, vec!["HOME is not set"]),
        (
            RegistryError::Symlinked(Place::Directory),
            vec!["refusing symlinked workspace state path /p"],
        ),
        (RegistryError::NotADirectory(Place::Directory), vec!["/p must be a real directory"]),
        (RegistryError::NotAFile(Place::Lock), vec!["/p must be a regular file"]),
        (RegistryError::NotOwned(Place::Lock), vec!["/p is not owned by the current user"]),
        (RegistryError::WrongMode(Place::Directory, 0o700), vec!["/p must have mode 0700"]),
        (RegistryError::WrongMode(Place::Registry, 0o600), vec!["/p must have mode 0600"]),
        (
            RegistryError::CannotInspectRegistry(failure()),
            vec!["failed to inspect workspace registry /p", "boom"],
        ),
        (
            RegistryError::CannotCreateDirectory(failure()),
            vec!["failed to create private directory /p", "boom"],
        ),
        (
            RegistryError::CannotReadRegistry(failure()),
            vec!["failed to read workspace registry /p", "boom"],
        ),
        (
            RegistryError::MalformedRegistry("boom".to_string()),
            vec!["invalid workspace registry /p", "boom"],
        ),
        (RegistryError::CannotLock(failure()), vec!["failed to lock workspaces", "boom"]),
        (RegistryError::Io(failure()), vec!["boom"]),
        (
            RegistryError::UnsupportedVersion(4_294_967_295),
            vec!["unsupported workspace registry version 4294967295 in /p"],
        ),
        (
            RegistryError::InvalidSelection(SelectionError::NotAbsolute),
            vec!["workspace must be an absolute path"],
        ),
        (
            RegistryError::InvalidSelection(SelectionError::NotADirectory),
            vec!["workspace must be an existing directory: /p"],
        ),
        (
            RegistryError::InvalidEntry(b"/p".to_vec(), SelectionError::Missing(failure())),
            vec!["invalid workspace /p", "workspace does not exist: /p", "boom"],
        ),
        (
            RegistryError::InvalidEntry(b"/p".to_vec(), SelectionError::Uninspectable(failure())),
            vec!["invalid workspace /p", "boom"],
        ),
        (
            RegistryError::NotCanonical(b"/p".to_vec()),
            vec!["workspace registry contains a non-canonical path /p"],
        ),
        (RegistryError::DuplicatePath, vec!["duplicate workspace path in /p"]),
    ];
    for (error, expected) in cases {
        assert_eq!(error.chain("/p"), expected);
    }
}

#[test]
fn errors_know_what_they_are_about() {
    assert_eq!(RegistryError::NoParent.place(), None);
    assert_eq!(RegistryError::NotOwned(Place::Lock).place(), Some(Place::Lock));
    assert_eq!(RegistryError::UnsupportedVersion(2).place(), Some(Place::Registry));
    assert_eq!(
        RegistryError::InvalidSelection(SelectionError::NotAbsolute).place(),
        Some(Place::Selection)
    );
    let stored = RegistryError::NotCanonical(b"/x".to_vec());
    assert_eq!(stored.stored_path(), Some(&b"/x".to_vec()));
    assert_eq!(stored.place(), None);
}
