//! The error taxonomy shared by path resolution, install and pick.
use vstd::prelude::*;

verus! {

/// Failure of lexical path resolution.
#[derive(Debug, Clone, Copy, PartialEq, Eq, Structural)]
pub enum PathError {
    /// A relative path needed a base, and none was supplied.
    NoWorkingDirectory,
    /// The absolute path does not lexically lie under the expected base.
    PathDiff,
    /// The path could not be normalised (it is empty).
    Absolutize,
}

/// Every failure that install or pick can report for one item.
#[derive(Debug, Clone, PartialEq, Eq)]
pub enum ErrorKind {
    /// A relative path needed a base, and none was supplied.
    NoWorkingDirectory,
    /// A path does not lexically lie under the expected base.
    PathDiff,
    /// A path could not be normalised.
    Absolutize,
    /// An underlying file-system operation failed; the text describes it.
    Io(String),
    /// The link target is neither a file nor a directory.
    NotFileOrDir,
    /// The path is already tracked under the other kind (file versus directory).
    ConflictingEntry,
    /// Pick could not copy into the repository; nothing was removed.
    CopyFailed(String),
    /// Pick copied into the repository but could not remove the entry from the install base:
    /// the repository holds a duplicate and the target is not linked.
    RemoveFailed(String),
    /// Pick removed the entry from the install base but could not create the link: the
    /// repository copy is the only surviving copy.
    LinkFailed(String),
}

impl ErrorKind {
    /// A copy of this error.
    pub fn clone_error(&self) -> (r: ErrorKind)
        ensures
            r == *self,
    {
        match self {
            ErrorKind::NoWorkingDirectory => ErrorKind::NoWorkingDirectory,
            ErrorKind::PathDiff => ErrorKind::PathDiff,
            ErrorKind::Absolutize => ErrorKind::Absolutize,
            ErrorKind::Io(c) => ErrorKind::Io(c.clone()),
            ErrorKind::NotFileOrDir => ErrorKind::NotFileOrDir,
            ErrorKind::ConflictingEntry => ErrorKind::ConflictingEntry,
            ErrorKind::CopyFailed(c) => ErrorKind::CopyFailed(c.clone()),
            ErrorKind::RemoveFailed(c) => ErrorKind::RemoveFailed(c.clone()),
            ErrorKind::LinkFailed(c) => ErrorKind::LinkFailed(c.clone()),
        }
    }

    /// The error's text, as reported for an item.
    pub open spec fn spec_text(&self) -> Seq<char> {
        match self {
            ErrorKind::NoWorkingDirectory => "no working directory"@,
            ErrorKind::PathDiff => "path does not lie under the base"@,
            ErrorKind::Absolutize => "path cannot be normalised"@,
            ErrorKind::Io(c) => "I/O error: "@ + c@,
            ErrorKind::NotFileOrDir => "not a file or directory"@,
            ErrorKind::ConflictingEntry => "conflicting manifest entry"@,
            ErrorKind::CopyFailed(c) => "copy failed, nothing removed: "@ + c@,
            ErrorKind::RemoveFailed(c) => "remove failed after the copy, the repository holds a duplicate: "@ + c@,
            ErrorKind::LinkFailed(c) => "link failed after the remove, the repository copy is the only copy: "@ + c@,
        }
    }

    /// The error's text, as reported for an item.
    pub fn text(&self) -> (r: String)
        ensures
            r@ == self.spec_text(),
    {
        match self {
            ErrorKind::NoWorkingDirectory => String::from_str("no working directory"),
            ErrorKind::PathDiff => String::from_str("path does not lie under the base"),
            ErrorKind::Absolutize => String::from_str("path cannot be normalised"),
            ErrorKind::Io(c) => String::from_str("I/O error: ").concat(c.as_str()),
            ErrorKind::NotFileOrDir => String::from_str("not a file or directory"),
            ErrorKind::ConflictingEntry => String::from_str("conflicting manifest entry"),
            ErrorKind::CopyFailed(c) => String::from_str("copy failed, nothing removed: ").concat(c.as_str()),
            ErrorKind::RemoveFailed(c) => String::from_str(
                "remove failed after the copy, the repository holds a duplicate: ",
            ).concat(c.as_str()),
            ErrorKind::LinkFailed(c) => String::from_str(
                "link failed after the remove, the repository copy is the only copy: ",
            ).concat(c.as_str()),
        }
    }
}

/// Conversion of a lower-level failure into the library's error taxonomy.
pub trait IntoIoError: Sized {
    spec fn spec_into_ioerr(self) -> ErrorKind;

    fn into_ioerr(self) -> (r: ErrorKind)
        ensures
            r == self.spec_into_ioerr(),
    ;
}

impl IntoIoError for PathError {
    open spec fn spec_into_ioerr(self) -> ErrorKind {
        match self {
            PathError::NoWorkingDirectory => ErrorKind::NoWorkingDirectory,
            PathError::PathDiff => ErrorKind::PathDiff,
            PathError::Absolutize => ErrorKind::Absolutize,
        }
    }

    fn into_ioerr(self) -> (r: ErrorKind) {
        match self {
            PathError::NoWorkingDirectory => ErrorKind::NoWorkingDirectory,
            PathError::PathDiff => ErrorKind::PathDiff,
            PathError::Absolutize => ErrorKind::Absolutize,
        }
    }
}

} // verus!
