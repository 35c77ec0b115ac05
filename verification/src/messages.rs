//! What is said of a failure: a message, and the causes under it.

use vstd::prelude::*;
use vstd::string::*;

use crate::names;
use crate::protocol::{IoFailure, Place, RegistryError, SelectionError, DIRECTORY_MODE};

verus! {

/// A number as text.
pub open spec fn decimal_text(n: nat) -> Seq<char> {
    names::decimal(n).map_values(|digit: u8| digit as char)
}

pub open spec fn texts(list: Seq<String>) -> Seq<Seq<char>> {
    list.map_values(|text: String| text@)
}

/// Why a path cannot be used, where `subject` is the path.
pub open spec fn selection_chain(error: SelectionError, subject: Seq<char>) -> Seq<Seq<char>> {
    match error {
        SelectionError::NotAbsolute => seq!["workspace must be an absolute path"@],
        SelectionError::Missing(failure) => seq![
            "workspace does not exist: "@ + subject,
            failure.detail@,
        ],
        SelectionError::Uninspectable(failure) => seq![failure.detail@],
        SelectionError::NotADirectory => seq![
            "workspace must be an existing directory: "@ + subject,
        ],
    }
}

/// The message of an error and the causes under it, where `subject` is the path that the error is
/// about.
pub open spec fn error_chain(error: RegistryError, subject: Seq<char>) -> Seq<Seq<char>> {
    match error {
        RegistryError::NoParent => seq!["workspace registry path has no parent"@],
        RegistryError::HomeNotSet => seq!["HOME is not set"@],
        RegistryError::Symlinked(_) => seq![
            "refusing symlinked workspace state path "@ + subject,
        ],
        RegistryError::NotADirectory(_) => seq![subject + " must be a real directory"@],
        RegistryError::NotAFile(_) => seq![subject + " must be a regular file"@],
        RegistryError::NotOwned(_) => seq![subject + " is not owned by the current user"@],
        RegistryError::WrongMode(_, mode) => if mode == DIRECTORY_MODE {
            seq![subject + " must have mode 0700"@]
        } else {
            seq![subject + " must have mode 0600"@]
        },
        RegistryError::CannotInspectRegistry(failure) => seq![
            "failed to inspect workspace registry "@ + subject,
            failure.detail@,
        ],
        RegistryError::CannotCreateDirectory(failure) => seq![
            "failed to create private directory "@ + subject,
            failure.detail@,
        ],
        RegistryError::CannotReadRegistry(failure) => seq![
            "failed to read workspace registry "@ + subject,
            failure.detail@,
        ],
        RegistryError::MalformedRegistry(detail) => seq![
            "invalid workspace registry "@ + subject,
            detail@,
        ],
        RegistryError::CannotLock(failure) => seq!["failed to lock workspaces"@, failure.detail@],
        RegistryError::Io(failure) => seq![failure.detail@],
        RegistryError::UnsupportedVersion(version) => seq![
            "unsupported workspace registry version "@ + decimal_text(version as nat) + " in "@
                + subject,
        ],
        RegistryError::InvalidSelection(error) => selection_chain(error, subject),
        RegistryError::InvalidEntry(_, error) => seq!["invalid workspace "@ + subject]
            + selection_chain(error, subject),
        RegistryError::NotCanonical(_) => seq![
            "workspace registry contains a non-canonical path "@ + subject,
        ],
        RegistryError::DuplicatePath => seq!["duplicate workspace path in "@ + subject],
    }
}

fn digit_text(digit: u8) -> (text: &'static str)
    requires
        digit < 10,
    ensures
        text@ == seq![(48 + digit) as char],
{
    proof {
        reveal_strlit("0");
        reveal_strlit("1");
        reveal_strlit("2");
        reveal_strlit("3");
        reveal_strlit("4");
        reveal_strlit("5");
        reveal_strlit("6");
        reveal_strlit("7");
        reveal_strlit("8");
        reveal_strlit("9");
    }
    let text = match digit {
        0 => "0",
        1 => "1",
        2 => "2",
        3 => "3",
        4 => "4",
        5 => "5",
        6 => "6",
        7 => "7",
        8 => "8",
        _ => "9",
    };
    assert(text@ =~= seq![(48 + digit) as char]);
    text
}

fn append_decimal(text: &mut String, n: u32)
    ensures
        final(text)@ == old(text)@ + decimal_text(n as nat),
    decreases n,
{
    let digit: u8 = (n % 10) as u8;
    if n >= 10 {
        append_decimal(text, n / 10);
    }
    text.append(digit_text(digit));
    assert(text@ =~= old(text)@ + decimal_text(n as nat));
}

fn phrase(start: &str, end: &str) -> (text: String)
    ensures
        text@ == start@ + end@,
{
    let mut text = start.to_owned();
    text.append(end);
    text
}

fn one(text: String) -> (list: Vec<String>)
    ensures
        texts(list@) == seq![text@],
{
    let mut list: Vec<String> = Vec::new();
    list.push(text);
    assert(texts(list@) =~= seq![text@]);
    list
}

fn two(text: String, cause: &String) -> (list: Vec<String>)
    ensures
        texts(list@) == seq![text@, cause@],
{
    let mut list: Vec<String> = Vec::new();
    list.push(text);
    list.push(cause.clone());
    assert(texts(list@) =~= seq![text@, cause@]);
    list
}

impl SelectionError {
    /// Why a path cannot be used, where `subject` is the path.
    pub fn chain(&self, subject: &str) -> (list: Vec<String>)
        ensures
            texts(list@) == selection_chain(*self, subject@),
    {
        match self {
            SelectionError::NotAbsolute => one("workspace must be an absolute path".to_owned()),
            SelectionError::Missing(failure) => two(
                phrase("workspace does not exist: ", subject),
                &failure.detail,
            ),
            SelectionError::Uninspectable(failure) => one(failure.detail.clone()),
            SelectionError::NotADirectory => one(
                phrase("workspace must be an existing directory: ", subject),
            ),
        }
    }
}

impl RegistryError {
    /// The place that the error is about, where it is about one.
    pub open spec fn about(self) -> Option<Place> {
        match self {
            RegistryError::Symlinked(place) => Some(place),
            RegistryError::NotADirectory(place) => Some(place),
            RegistryError::NotAFile(place) => Some(place),
            RegistryError::NotOwned(place) => Some(place),
            RegistryError::WrongMode(place, _) => Some(place),
            RegistryError::CannotInspectRegistry(_) => Some(Place::Registry),
            RegistryError::CannotCreateDirectory(_) => Some(Place::Directory),
            RegistryError::CannotReadRegistry(_) => Some(Place::Registry),
            RegistryError::MalformedRegistry(_) => Some(Place::Registry),
            RegistryError::UnsupportedVersion(_) => Some(Place::Registry),
            RegistryError::InvalidSelection(_) => Some(Place::Selection),
            RegistryError::DuplicatePath => Some(Place::Registry),
            _ => None,
        }
    }

    /// The place that the error is about, where it is about one.
    pub fn place(&self) -> (place: Option<Place>)
        ensures
            place == self.about(),
    {
        match self {
            RegistryError::Symlinked(place) => Some(*place),
            RegistryError::NotADirectory(place) => Some(*place),
            RegistryError::NotAFile(place) => Some(*place),
            RegistryError::NotOwned(place) => Some(*place),
            RegistryError::WrongMode(place, _) => Some(*place),
            RegistryError::CannotInspectRegistry(_) => Some(Place::Registry),
            RegistryError::CannotCreateDirectory(_) => Some(Place::Directory),
            RegistryError::CannotReadRegistry(_) => Some(Place::Registry),
            RegistryError::MalformedRegistry(_) => Some(Place::Registry),
            RegistryError::UnsupportedVersion(_) => Some(Place::Registry),
            RegistryError::InvalidSelection(_) => Some(Place::Selection),
            RegistryError::DuplicatePath => Some(Place::Registry),
            _ => None,
        }
    }

    /// The stored path that the error is about, where it is about one.
    pub fn stored_path(&self) -> (path: Option<&Vec<u8>>)
        ensures
            match *self {
                RegistryError::InvalidEntry(stored, _) => path == Some(&stored),
                RegistryError::NotCanonical(stored) => path == Some(&stored),
                _ => path is None,
            },
    {
        match self {
            RegistryError::InvalidEntry(stored, _) => Some(stored),
            RegistryError::NotCanonical(stored) => Some(stored),
            _ => None,
        }
    }

    /// The message of the error and the causes under it, where `subject` is the path that it is
    /// about.
    pub fn chain(&self, subject: &str) -> (list: Vec<String>)
        ensures
            texts(list@) == error_chain(*self, subject@),
    {
        match self {
            RegistryError::NoParent => one("workspace registry path has no parent".to_owned()),
            RegistryError::HomeNotSet => one("HOME is not set".to_owned()),
            RegistryError::Symlinked(_) => one(
                phrase("refusing symlinked workspace state path ", subject),
            ),
            RegistryError::NotADirectory(_) => one(phrase(subject, " must be a real directory")),
            RegistryError::NotAFile(_) => one(phrase(subject, " must be a regular file")),
            RegistryError::NotOwned(_) => one(
                phrase(subject, " is not owned by the current user"),
            ),
            RegistryError::WrongMode(_, mode) => if *mode == DIRECTORY_MODE {
                one(phrase(subject, " must have mode 0700"))
            } else {
                one(phrase(subject, " must have mode 0600"))
            },
            RegistryError::CannotInspectRegistry(failure) => two(
                phrase("failed to inspect workspace registry ", subject),
                &failure.detail,
            ),
            RegistryError::CannotCreateDirectory(failure) => two(
                phrase("failed to create private directory ", subject),
                &failure.detail,
            ),
            RegistryError::CannotReadRegistry(failure) => two(
                phrase("failed to read workspace registry ", subject),
                &failure.detail,
            ),
            RegistryError::MalformedRegistry(detail) => two(
                phrase("invalid workspace registry ", subject),
                detail,
            ),
            RegistryError::CannotLock(failure) => two(
                "failed to lock workspaces".to_owned(),
                &failure.detail,
            ),
            RegistryError::Io(failure) => one(failure.detail.clone()),
            RegistryError::UnsupportedVersion(version) => {
                let mut text = "unsupported workspace registry version ".to_owned();
                append_decimal(&mut text, *version);
                text.append(" in ");
                text.append(subject);
                one(text)
            },
            RegistryError::InvalidSelection(error) => error.chain(subject),
            RegistryError::InvalidEntry(_, error) => {
                let mut list = one(phrase("invalid workspace ", subject));
                let ghost first = list@;
                let mut causes = error.chain(subject);
                let ghost rest = causes@;
                list.append(&mut causes);
                assert(texts(list@) =~= texts(first) + texts(rest));
                list
            },
            RegistryError::NotCanonical(_) => one(
                phrase("workspace registry contains a non-canonical path ", subject),
            ),
            RegistryError::DuplicatePath => one(phrase("duplicate workspace path in ", subject)),
        }
    }
}

/// The texts of a list are those of its items in their order, and a number's text has the
/// characters of its digits.
pub proof fn texts_are_faithful(list: Seq<String>, i: int, n: nat, j: int)
    ensures
        texts(list).len() == list.len(),
        0 <= i < list.len() ==> texts(list)[i] == list[i]@,
        decimal_text(n).len() == names::decimal(n).len(),
        0 <= j < decimal_text(n).len() ==> decimal_text(n)[j] == names::decimal(n)[j] as char,
{
}

/// What is said of a selection that cannot be used. A failure of the operating system is said in
/// its own words, as the cause.
pub proof fn selection_errors_are_explained(
    error: SelectionError,
    failure: IoFailure,
    subject: Seq<char>,
)
    ensures
        selection_chain(SelectionError::NotAbsolute, subject) == seq![
            "workspace must be an absolute path"@,
        ],
        selection_chain(SelectionError::Missing(failure), subject) == seq![
            "workspace does not exist: "@ + subject,
            failure.detail@,
        ],
        selection_chain(SelectionError::Uninspectable(failure), subject) == seq![failure.detail@],
        selection_chain(SelectionError::NotADirectory, subject) == seq![
            "workspace must be an existing directory: "@ + subject,
        ],
        error_chain(RegistryError::InvalidSelection(error), subject) == selection_chain(
            error,
            subject,
        ),
{
}

/// What is said of a state file or the state directory that is refused, whichever it is.
pub proof fn refused_state_is_explained(place: Place, subject: Seq<char>)
    ensures
        error_chain(RegistryError::Symlinked(place), subject) == seq![
            "refusing symlinked workspace state path "@ + subject,
        ],
        error_chain(RegistryError::NotADirectory(place), subject) == seq![
            subject + " must be a real directory"@,
        ],
        error_chain(RegistryError::NotAFile(place), subject) == seq![
            subject + " must be a regular file"@,
        ],
        error_chain(RegistryError::NotOwned(place), subject) == seq![
            subject + " is not owned by the current user"@,
        ],
        error_chain(RegistryError::WrongMode(place, 0o700), subject) == seq![
            subject + " must have mode 0700"@,
        ],
        error_chain(RegistryError::WrongMode(place, 0o600), subject) == seq![
            subject + " must have mode 0600"@,
        ],
        error_chain(RegistryError::NoParent, subject) == seq![
            "workspace registry path has no parent"@,
        ],
        error_chain(RegistryError::HomeNotSet, subject) == seq!["HOME is not set"@],
{
}

/// What is said of an operation that failed: what was attempted, then the failure in its own words.
pub proof fn failures_are_explained(failure: IoFailure, detail: String, subject: Seq<char>)
    ensures
        error_chain(RegistryError::CannotInspectRegistry(failure), subject) == seq![
            "failed to inspect workspace registry "@ + subject,
            failure.detail@,
        ],
        error_chain(RegistryError::CannotCreateDirectory(failure), subject) == seq![
            "failed to create private directory "@ + subject,
            failure.detail@,
        ],
        error_chain(RegistryError::CannotReadRegistry(failure), subject) == seq![
            "failed to read workspace registry "@ + subject,
            failure.detail@,
        ],
        error_chain(RegistryError::MalformedRegistry(detail), subject) == seq![
            "invalid workspace registry "@ + subject,
            detail@,
        ],
        error_chain(RegistryError::CannotLock(failure), subject) == seq![
            "failed to lock workspaces"@,
            failure.detail@,
        ],
        error_chain(RegistryError::Io(failure), subject) == seq![failure.detail@],
{
}

/// What is said of a document that is refused.
pub proof fn refused_documents_are_explained(
    version: u32,
    path: Vec<u8>,
    error: SelectionError,
    subject: Seq<char>,
)
    ensures
        error_chain(RegistryError::UnsupportedVersion(version), subject) == seq![
            "unsupported workspace registry version "@ + decimal_text(version as nat) + " in "@
                + subject,
        ],
        error_chain(RegistryError::InvalidEntry(path, error), subject) == seq![
            "invalid workspace "@ + subject,
        ] + selection_chain(error, subject),
        error_chain(RegistryError::NotCanonical(path), subject) == seq![
            "workspace registry contains a non-canonical path "@ + subject,
        ],
        error_chain(RegistryError::DuplicatePath, subject) == seq![
            "duplicate workspace path in "@ + subject,
        ],
{
}

/// Which place an error is about: the one that it names; the registry where its document or its
/// reading is at fault; the directory where it could not be created; the selection where that was
/// refused.
pub proof fn errors_are_about_a_place(error: RegistryError)
    ensures
        error is Symlinked ==> error.about() == Some(error->Symlinked_0),
        error is NotADirectory ==> error.about() == Some(error->NotADirectory_0),
        error is NotAFile ==> error.about() == Some(error->NotAFile_0),
        error is NotOwned ==> error.about() == Some(error->NotOwned_0),
        error is WrongMode ==> error.about() == Some(error->WrongMode_0),
        error is CannotInspectRegistry || error is CannotReadRegistry || error is MalformedRegistry
            || error is UnsupportedVersion || error is DuplicatePath ==> error.about() == Some(
            Place::Registry,
        ),
        error is CannotCreateDirectory ==> error.about() == Some(Place::Directory),
        error is InvalidSelection ==> error.about() == Some(Place::Selection),
        error is NoParent || error is HomeNotSet || error is CannotLock || error is Io
            || error is InvalidEntry || error is NotCanonical ==> error.about() is None,
{
}

} // verus!
