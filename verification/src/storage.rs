//! The handle naming a file-backed byte store. The I/O that reads and
//! writes such a store is outside the library; the handle only carries the
//! path.

use vstd::prelude::*;
use std::path::PathBuf;

verus! {

#[verifier::external_type_specification]
#[verifier::external_body]
pub struct ExPathBuf(PathBuf);

/// Relies on `PathBuf::clone`: a second handle on the same path. The path
/// itself is opaque here, so nothing is stated of the result.
pub assume_specification[ <PathBuf as Clone>::clone ](p: &PathBuf) -> PathBuf;

/// A byte store backed by a file at a fixed path.
#[derive(Clone, Debug)]
pub struct FileBackedStore {
    path: PathBuf,
}

impl FileBackedStore {
    /// A store handle for the file at `path`.
    pub fn new(path: PathBuf) -> FileBackedStore {
        FileBackedStore { path }
    }

    /// The path of the backing file.
    pub fn path(&self) -> &PathBuf {
        &self.path
    }
}

} // verus!
