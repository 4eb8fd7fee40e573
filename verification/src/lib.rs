//! A verified core for an interactive directory browser.
//!
//! The library keeps a cursor over the entries of a current directory and
//! supports navigation (up/down/into/out), hidden-file filtering, substring
//! search filtering, marking of paths, and deletion of the current entry.
//! Directory listing and mutation are delegated to a pluggable `FileSystem`
//! backend; everything else — index remapping between the unfiltered and the
//! filtered entry list, boundary behaviour, the synthetic parent entry — is
//! implemented and specified here.

pub mod entry;
pub mod explorer;
pub mod filesystem;
pub mod listing;
pub mod path_ops;
pub mod search;

pub use entry::FileEntry;
pub use explorer::Command;
pub use explorer::FileExplorer;
pub use filesystem::FileSystem;
pub use filesystem::FsError;
