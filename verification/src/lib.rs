//! Backup of selected game folders into one archive.
//!
//! The library holds the rules of a backup run: which directory each selected
//! folder stands for, which of the listed files are taken, how their sizes add
//! up, what the metadata record says, and which entries the archive gets under
//! which names. Reading directories and files and writing the results to disk
//! are left to the caller, who hands in what was read as plain values.

pub mod archive;
mod clock;
pub mod data;
pub mod folders;
pub mod json;
pub mod laws;
pub mod options;
pub mod reading;
pub mod text;
pub mod writer;

pub use archive::{ArchiveError, ArchiveSummary, BackupManager, RunStep, SourceFile};
pub use data::{BackUpData, MetadataFile};
pub use folders::Folders;
pub use options::{BackUpOptions, FolderEntry};
