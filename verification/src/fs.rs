//! The filesystem capability interface: the open-flag bundle, the error
//! taxonomy, and the trait a backend implements.
//!
//! The privileged control service holds one value of a type implementing
//! [`Fs`] and reaches the filesystem through no other channel, so a real
//! OS-backed adapter and the in-memory double of [`crate::memfs`] are
//! interchangeable behind it.

use vstd::prelude::*;
use crate::path::FsPath;

verus! {

/// The failures the capability interface can surface.
#[derive(Debug, Clone, Copy, PartialEq, Eq, Structural)]
pub enum FsError {
    /// The operation targeted a path absent from the backend, and creation
    /// was not requested.
    NotFound,
    /// The handle lacks the flag the operation needs.
    PermissionDenied,
    /// A file-only operation targeted a path classified as a directory.
    IsADirectory,
    /// A directory listing targeted a path that is itself a stored file.
    NotADirectory,
    /// The bytes handed to a write are not valid text.
    ContentDecodeError,
}

/// An immutable bundle of the four open flags. Each setter returns a new
/// bundle with one flag changed and the receiver untouched.
#[derive(Debug, Clone, Copy, PartialEq, Eq, Structural)]
pub struct OpenOptions {
    pub read: bool,
    pub write: bool,
    pub append: bool,
    pub create: bool,
}

impl Default for OpenOptions {
    /// All four flags start out unset.
    fn default() -> (r: Self)
        ensures
            r == (OpenOptions { read: false, write: false, append: false, create: false }),
    {
        OpenOptions { read: false, write: false, append: false, create: false }
    }
}

impl OpenOptions {
    /// The bundle with the read flag set to `val`.
    pub fn read(self, val: bool) -> (r: Self)
        ensures
            r == (OpenOptions { read: val, ..self }),
    {
        OpenOptions { read: val, ..self }
    }

    /// The bundle with the write flag set to `val`.
    pub fn write(self, val: bool) -> (r: Self)
        ensures
            r == (OpenOptions { write: val, ..self }),
    {
        OpenOptions { write: val, ..self }
    }

    /// The bundle with the append flag set to `val`.
    pub fn append(self, val: bool) -> (r: Self)
        ensures
            r == (OpenOptions { append: val, ..self }),
    {
        OpenOptions { append: val, ..self }
    }

    /// The bundle with the create flag set to `val`.
    pub fn create(self, val: bool) -> (r: Self)
        ensures
            r == (OpenOptions { create: val, ..self }),
    {
        OpenOptions { create: val, ..self }
    }
}

/// The capability interface: the only operations the control service needs
/// from a filesystem. Each backend supplies a validity predicate `inv` that
/// its operations assume and preserve; what each operation returns is stated
/// by the implementing type.
pub trait Fs: Sized {
    /// The backend's handle type: a token binding a path to the options it
    /// was opened with.
    type File;

    /// The backend's directory-listing entry type.
    type DirEnt;

    /// Validity of the backend's state.
    spec fn inv(&self) -> bool;

    /// Whether `path` is a literal stored file. A derived directory is not
    /// reported here: this answers file existence only.
    fn file_exists(&self, path: &FsPath) -> (r: Result<bool, FsError>)
        requires
            self.inv(),
    ;

    /// Obtain a handle for `path` carrying `options`. Only intent is
    /// recorded; content is untouched.
    fn open(&self, options: OpenOptions, path: &FsPath) -> (r: Result<Self::File, FsError>)
        requires
            self.inv(),
    ;

    /// The stored text behind the handle.
    fn read_to_string(&self, f: &Self::File) -> (r: Result<String, FsError>)
        requires
            self.inv(),
    ;

    /// Replace (or, with the create flag, introduce) the content behind the
    /// handle with the given bytes.
    fn write_to(&mut self, f: &Self::File, content: &[u8]) -> (r: Result<(), FsError>)
        requires
            old(self).inv(),
        ensures
            final(self).inv(),
    ;

    /// List the children derived for `path`.
    fn dir(&self, path: &FsPath) -> (r: Result<Vec<Self::DirEnt>, FsError>)
        requires
            self.inv(),
    ;

    /// Classify a listing entry as a directory.
    fn is_dir(dirent: &Self::DirEnt) -> bool;

    /// Classify a listing entry as a file: the negation of [`Fs::is_dir`].
    fn is_file(dirent: &Self::DirEnt) -> bool;
}

} // verus!
