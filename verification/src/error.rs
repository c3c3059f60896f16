//! The errors of this library.
use vstd::prelude::*;

verus! {

/// The error `chrono` gives when a date and time does not parse.
#[verifier::external_type_specification]
#[verifier::external_body]
pub struct ExChronoParseError(chrono::ParseError);

/// An error of the operating system, as `std::io` reports it.
#[verifier::external_type_specification]
#[verifier::external_body]
pub struct ExIoError(std::io::Error);

/// Everything that can go wrong. Paths are held as the bytes of the
/// operating system's path.
#[derive(Debug)]
pub enum Error {
    /// The HOME env var was not set
    Homeless,
    /// Io Error
    IoError(std::io::Error),
    /// Failed to determine the home trash
    FailedToFindHomeTrash(Box<Error>),
    /// The trash at the path is invalid because the sticky bit not set
    NotSticky(Vec<u8>),
    /// The trash at the path is invalid because it is a symlink
    IsSymlink(Vec<u8>),
    /// The /proc/mounts file was in an unexpected format
    InvalidProcMounts,
    /// The first line was invalid
    InvalidFirstLine,
    /// The key/value pairs were invalid
    InvalidKeyValues,
    /// The key was not found
    MissingKey(&'static str),
    /// The datetime was invalid
    InvalidDateTime(chrono::ParseError),
    /// None of the available parsers matched the datetime
    InvalidDateTimeNoParserMatched { errors: Vec<chrono::ParseError> },
    /// The trashinfo file at the path is invalid
    InvalidTrashinfoFile(Vec<u8>, Box<Error>),
    /// The file does not have a file stem even though it should
    HasNoFileStem(Vec<u8>),
    /// The file does not end in `.trashinfo`
    InvalidTrashinfoExt,
    /// The trashinfo file has no corresponding file in the trash
    OrphanedTrashinfoFile,
    /// A file already exists at the path
    AlreadyExists(Vec<u8>),
    /// No known trash can holds files of the device and path
    NoTrashFound,
    /// Failed to trash the file at the path
    FailedToTrashFile(Vec<u8>, Box<Error>),
    /// Failed to create a trash can for the file at the path
    FailedToCreateTrash(Vec<u8>, Box<Error>),
}

/// The result of the operations of this library.
pub type Result<T> = core::result::Result<T, Error>;

} // verus!
