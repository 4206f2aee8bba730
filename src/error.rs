use vstd::prelude::*;

verus! {

/// `std::io::Error` is carried through unchanged.
#[verifier::external_type_specification]
#[verifier::external_body]
pub struct ExIoError(std::io::Error);

/// The ways reading an archive can fail.
#[derive(Debug)]
pub enum ArchiveError {
    /// The header or table of contents is malformed: a bad magic number,
    /// a record that runs past the end of the table, or a name that is not
    /// valid UTF-8.
    Format,
    /// The underlying byte source failed to seek or to deliver the bytes.
    Io(std::io::Error),
    /// No entry has the requested path.
    NotFound,
    /// The stored payload could not be decompressed.
    Decode,
}

} // verus!
