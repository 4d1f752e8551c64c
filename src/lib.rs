//! Synchronises dotfiles between a repository directory and an install base
//! through symbolic links.
//!
//! The library holds the decisions: lexical path resolution against a
//! virtual working directory, the manifest of tracked paths, what install
//! and pick must do for each entry, and the tally of a batch. The caller
//! performs the file-system work that those decisions ask for.
use vstd::prelude::*;

pub mod error;
pub mod path;

pub use error::{ErrorKind, IntoIoError, PathError};

pub use path::{AbsPath, RelPath};
pub mod repo;
pub mod install;
pub mod model;
pub mod pick;
