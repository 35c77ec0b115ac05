//! A private, persistent list of the workspaces that launches have used.
//!
//! The library decides and the caller acts. [`WorkspaceRegistry::load`],
//! [`WorkspaceRegistry::validate_selection`] and [`WorkspaceRegistry::record_launch_at`] start
//! procedures; a procedure asks for one action on the file system at a time, is told how it went,
//! and ends with a result that its contract fixes for every sequence of answers.

pub mod checks;
pub mod contents;
pub mod directory;
pub mod laws;
pub mod lexical;
pub mod locking;
pub mod messages;
pub mod names;
pub mod paths;
pub mod protocol;
pub mod reading;
pub mod recording;
pub mod records;
pub mod registry;
pub mod selection;
pub mod writing;

pub use names::default_workspaces_path;
pub use protocol::{
    Access, Action, FileFacts, IoFailure, Place, RegistryDocument, RegistryError, Reply,
    SelectionError, WorkspaceRecord,
};
pub use recording::{now_millis, Recording, SinceEpoch};
pub use registry::{Loading, WorkspaceRegistry};
pub use selection::{validate_workspace_selection, Selecting};
