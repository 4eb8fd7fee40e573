//! The pluggable filesystem backend contract.
//!
//! The explorer consults a backend only to list a directory and to delete
//! a file; the remaining operations are offered to callers that need to
//! probe paths through the same backend. Implementations live outside
//! this library (a local-disk adapter, a remote protocol); the explorer
//! is verified to keep its invariants for every value a backend returns.

use vstd::prelude::*;

use crate::entry::FileEntry;

verus! {

/// Why a filesystem operation failed.
#[derive(Debug, Clone, Copy, PartialEq, Eq)]
pub enum FsError {
    /// The path does not exist.
    NotFound,
    /// The caller may not access the path.
    PermissionDenied,
    /// The operation did not finish in time.
    TimedOut,
    /// Any other input/output failure.
    Other,
}

/// A filesystem backend.
///
/// Every operation that touches storage may fail; a failure leaves the
/// explorer's state untouched. Nothing is assumed about the results: the
/// explorer re-establishes its invariants for every batch a backend hands
/// back.
pub trait FileSystem {
    /// List the entries of the directory at `path`. Batches should be
    /// sorted directories-first, then by name ascending;
    /// [`crate::listing::sort_entries`] establishes that order.
    ///
    /// Each entry's `path` field is carried into the explorer unchanged
    /// and is exactly what a descent navigates to and a deletion deletes
    /// at. The ascent's re-selection round trip holds when reported
    /// paths have the `directory/name` shape (see
    /// [`crate::explorer::lemma_descend_ascend_state`]).
    fn read_dir(&self, path: &str) -> Result<Vec<FileEntry>, FsError>;

    /// Whether a path exists.
    fn path_exists(&self, path: &str) -> Result<bool, FsError>;

    /// Whether a path is a directory (following symbolic links).
    fn is_dir(&self, path: &str) -> Result<bool, FsError>;

    /// The canonical form of a path.
    fn canonicalize(&self, path: &str) -> Result<String, FsError>;

    /// The parent of a path, or `None` at a root. A pure computation;
    /// [`crate::path_ops::parent_of`] is the library's own.
    fn parent(&self, path: &str) -> Option<String>;

    /// Delete the regular file at `path`.
    fn delete(&self, path: &str) -> Result<(), FsError>;
}

} // verus!
