//! What makes a state file or the state directory trustworthy.

use vstd::prelude::*;

use crate::protocol::{
    Access, FileFacts, IoFailure, Place, RegistryError, DIRECTORY_MODE, FILE_MODE, PERMISSION_BITS,
};

verus! {

/// State is never reached through a symbolic link at its own path. A file that is not there is
/// no link.
pub open spec fn unless_symlinked(
    place: Place,
    inspection: Result<FileFacts, IoFailure>,
) -> Result<(), RegistryError> {
    match inspection {
        Ok(facts) => if facts.symlink {
            Err(RegistryError::Symlinked(place))
        } else {
            Ok(())
        },
        Err(failure) => if failure.not_found {
            Ok(())
        } else {
            Err(RegistryError::Io(failure))
        },
    }
}

/// Refuses a state path that is a symbolic link.
pub fn reject_symlink(place: Place, inspection: Result<FileFacts, IoFailure>) -> (result: Result<
    (),
    RegistryError,
>)
    ensures
        result == unless_symlinked(place, inspection),
        result is Ok <==> match inspection {
            Ok(facts) => !facts.symlink,
            Err(failure) => failure.not_found,
        },
{
    match inspection {
        Ok(facts) => if facts.symlink {
            Err(RegistryError::Symlinked(place))
        } else {
            Ok(())
        },
        Err(failure) => if failure.not_found {
            Ok(())
        } else {
            Err(RegistryError::Io(failure))
        },
    }
}

/// A file is private where it belongs to the user and has exactly the mode that is asked for.
/// Where the platform has no owners and modes, there is nothing to ask.
pub open spec fn private_access(
    place: Place,
    access: Option<Access>,
    mode: u32,
) -> Result<(), RegistryError> {
    match access {
        Some(access) => if access.owner != access.user {
            Err(RegistryError::NotOwned(place))
        } else if access.mode & PERMISSION_BITS != mode {
            Err(RegistryError::WrongMode(place, mode))
        } else {
            Ok(())
        },
        None => Ok(()),
    }
}

fn ensure_private_access(place: Place, access: Option<Access>, mode: u32) -> (result: Result<
    (),
    RegistryError,
>)
    ensures
        result == private_access(place, access, mode),
        result is Ok <==> access is None || access->0.owner == access->0.user && access->0.mode
            & 0o777 == mode,
{
    match access {
        Some(access) => {
            if access.owner != access.user {
                return Err(RegistryError::NotOwned(place));
            }
            if access.mode & PERMISSION_BITS != mode {
                return Err(RegistryError::WrongMode(place, mode));
            }
            Ok(())
        },
        None => Ok(()),
    }
}

/// The state directory is a real directory, private to the user.
pub open spec fn private_directory_facts(inspection: Result<FileFacts, IoFailure>) -> Result<
    (),
    RegistryError,
> {
    match inspection {
        Ok(facts) => if facts.symlink || !facts.directory {
            Err(RegistryError::NotADirectory(Place::Directory))
        } else {
            private_access(Place::Directory, facts.access, DIRECTORY_MODE)
        },
        Err(failure) => Err(RegistryError::Io(failure)),
    }
}

/// Refuses a state directory that is not real or not private.
pub fn ensure_private_directory_facts(inspection: Result<FileFacts, IoFailure>) -> (result: Result<
    (),
    RegistryError,
>)
    ensures
        result == private_directory_facts(inspection),
        result is Ok <==> inspection is Ok && private_to_user(inspection->Ok_0.access, 0o700)
            && inspection->Ok_0.directory && !inspection->Ok_0.symlink,
{
    match inspection {
        Ok(facts) => {
            if facts.symlink || !facts.directory {
                return Err(RegistryError::NotADirectory(Place::Directory));
            }
            ensure_private_access(Place::Directory, facts.access, DIRECTORY_MODE)
        },
        Err(failure) => Err(RegistryError::Io(failure)),
    }
}

/// A state file is a regular file, private to the user.
pub open spec fn private_file_facts(
    place: Place,
    inspection: Result<FileFacts, IoFailure>,
) -> Result<(), RegistryError> {
    match inspection {
        Ok(facts) => if facts.symlink || !facts.regular {
            Err(RegistryError::NotAFile(place))
        } else {
            private_access(place, facts.access, FILE_MODE)
        },
        Err(failure) => Err(RegistryError::Io(failure)),
    }
}

/// Refuses a state file that is not regular or not private.
pub fn ensure_private_file(
    place: Place,
    inspection: Result<FileFacts, IoFailure>,
) -> (result: Result<(), RegistryError>)
    ensures
        result == private_file_facts(place, inspection),
        result is Ok <==> inspection is Ok && private_to_user(inspection->Ok_0.access, 0o600)
            && inspection->Ok_0.regular && !inspection->Ok_0.symlink,
{
    match inspection {
        Ok(facts) => {
            if facts.symlink || !facts.regular {
                return Err(RegistryError::NotAFile(place));
            }
            ensure_private_access(place, facts.access, FILE_MODE)
        },
        Err(failure) => Err(RegistryError::Io(failure)),
    }
}

/// The file belongs to the user, and its permissions are exactly these; or the platform has
/// neither.
pub open spec fn private_to_user(access: Option<Access>, permissions: u32) -> bool {
    access is None || access->0.owner == access->0.user && access->0.mode & 0o777 == permissions
}

/// Being private to the user is a matter of the owner and of nine bits of the mode.
pub proof fn privacy_is_of_owner_and_permissions(access: Access, permissions: u32)
    ensures
        private_to_user(None, permissions),
        private_to_user(Some(access), permissions) <==> access.owner == access.user && access.mode
            & 0o777 == permissions,
{
}

/// Only a link, and a failure other than that nothing is there, are refused, each as what it is.
pub proof fn only_links_are_refused(place: Place, inspection: Result<FileFacts, IoFailure>)
    ensures
        unless_symlinked(place, inspection) is Ok <==> {
            ||| inspection is Ok && !inspection->Ok_0.symlink
            ||| inspection is Err && inspection->Err_0.not_found
        },
        inspection is Ok && inspection->Ok_0.symlink ==> unless_symlinked(place, inspection)
            == Err::<(), RegistryError>(RegistryError::Symlinked(place)),
        inspection is Err && !inspection->Err_0.not_found ==> unless_symlinked(place, inspection)
            == Err::<(), RegistryError>(RegistryError::Io(inspection->Err_0)),
{
}

/// Access is private if and only if the owner is the user and the nine permission bits are those
/// asked for. The other bits of a mode, such as those of the kind of file, make no difference.
pub proof fn access_is_judged_by_owner_and_permissions(
    place: Place,
    access: Access,
    other: Access,
    mode: u32,
)
    ensures
        private_access(place, None, mode) is Ok,
        private_access(place, Some(access), mode) is Ok <==> access.owner == access.user
            && access.mode & 0o777 == mode,
        private_access(place, Some(access), mode) == Err::<(), RegistryError>(
            RegistryError::NotOwned(place),
        ) <==> access.owner != access.user,
        private_access(place, Some(access), mode) == Err::<(), RegistryError>(
            RegistryError::WrongMode(place, mode),
        ) <==> access.owner == access.user && access.mode & 0o777 != mode,
        (access.owner == access.user <==> other.owner == other.user) && access.mode & 0o777
            == other.mode & 0o777 ==> private_access(place, Some(access), mode) == private_access(
            place,
            Some(other),
            mode,
        ),
{
}

/// A state directory is accepted if and only if it is a directory, no link, and private with mode
/// 0700. Otherwise the error says which of these fails first.
pub proof fn directory_is_judged_by_its_facts(inspection: Result<FileFacts, IoFailure>)
    ensures
        private_directory_facts(inspection) is Ok <==> {
            &&& inspection is Ok
            &&& inspection->Ok_0.directory
            &&& !inspection->Ok_0.symlink
            &&& private_to_user(inspection->Ok_0.access, 0o700)
        },
        inspection is Err ==> private_directory_facts(inspection) == Err::<(), RegistryError>(
            RegistryError::Io(inspection->Err_0),
        ),
        inspection is Ok && (!inspection->Ok_0.directory || inspection->Ok_0.symlink)
            ==> private_directory_facts(inspection) == Err::<(), RegistryError>(
            RegistryError::NotADirectory(Place::Directory),
        ),
        inspection is Ok && inspection->Ok_0.directory && !inspection->Ok_0.symlink
            && inspection->Ok_0.access is Some ==> {
            let access = inspection->Ok_0.access->0;
            &&& access.owner != access.user ==> private_directory_facts(inspection) == Err::<
                (),
                RegistryError,
            >(RegistryError::NotOwned(Place::Directory))
            &&& access.owner == access.user && access.mode & 0o777 != 0o700
                ==> private_directory_facts(inspection) == Err::<(), RegistryError>(
                RegistryError::WrongMode(Place::Directory, 0o700),
            )
        },
{
}

/// A state file is accepted if and only if it is a regular file, no link, and private with mode
/// 0600. Otherwise the error says which of these fails first.
pub proof fn file_is_judged_by_its_facts(place: Place, inspection: Result<FileFacts, IoFailure>)
    ensures
        private_file_facts(place, inspection) is Ok <==> {
            &&& inspection is Ok
            &&& inspection->Ok_0.regular
            &&& !inspection->Ok_0.symlink
            &&& private_to_user(inspection->Ok_0.access, 0o600)
        },
        inspection is Err ==> private_file_facts(place, inspection) == Err::<(), RegistryError>(
            RegistryError::Io(inspection->Err_0),
        ),
        inspection is Ok && (!inspection->Ok_0.regular || inspection->Ok_0.symlink)
            ==> private_file_facts(place, inspection) == Err::<(), RegistryError>(
            RegistryError::NotAFile(place),
        ),
        inspection is Ok && inspection->Ok_0.regular && !inspection->Ok_0.symlink
            && inspection->Ok_0.access is Some ==> {
            let access = inspection->Ok_0.access->0;
            &&& access.owner != access.user ==> private_file_facts(place, inspection) == Err::<
                (),
                RegistryError,
            >(RegistryError::NotOwned(place))
            &&& access.owner == access.user && access.mode & 0o777 != 0o600
                ==> private_file_facts(place, inspection) == Err::<(), RegistryError>(
                RegistryError::WrongMode(place, 0o600),
            )
        },
{
}

} // verus!
