//! Reading InstallShield Z archives.
//!
//! The decoder in [`format`] turns the header and table of contents of an
//! archive into a list of entries without doing any I/O itself; the readers
//! in [`archive`] drive it against a seekable byte source and serve reads by
//! logical path.

pub mod archive;
pub mod bytes;
pub mod catalog;
pub mod error;
pub mod format;

pub use archive::{Archive, AsyncArchive};
pub use error::ArchiveError;
pub use format::{FileInfo, Format, FormatStep};
