//! The ways in which writing or reading an archive fails.
//!
//! Nothing is recovered from: every failure ends the call that met it. An
//! error carries the values that a message needs, the expected beside the
//! actual; turning it into text is left to the caller.

use vstd::prelude::*;

verus! {

/// Why an archive could not be written or read.
#[derive(Clone, Debug, PartialEq, Eq)]
pub enum ArchiveError {
    /// The stream does not start with the format label.
    WrongLabel,
    /// The byte that announces the version is not where it must be: the
    /// stream is no archive, or one from before versions were stored.
    MissingVersionMarker,
    /// Fewer than three bytes were given for a version.
    InvalidVersionBytes,
    /// The archive's major version is below this implementation's.
    FileTooOld { major: u8 },
    /// The archive's major version is above this implementation's.
    FileTooNew { major: u8, minor: u8 },
    /// The archive's minor version is above this implementation's.
    MinorTooNew { major: u8, minor: u8 },
    /// The archive and the caller disagree on compression. The field says
    /// what the archive's header holds.
    CompressionMismatch { archive_compressed: bool },
    /// The archive and the caller disagree on encryption. The field says
    /// what the archive's header holds.
    EncryptionMismatch { archive_encrypted: bool },
    /// Encryption is asked for, but no password was given.
    MissingPassword,
    /// No key could be derived from the password and the salt.
    KeyDerivationFailed,
    /// The cipher refused a chunk, or the stream has more chunks than its
    /// counter can number.
    EncryptionFailed,
    /// A chunk failed authentication: the password is wrong or the archive
    /// was altered.
    DecryptionFailed,
    /// The compressor failed.
    CompressionFailed,
    /// The payload of an entry is no zlib stream.
    DecompressionFailed,
    /// The digest of a restored file differs from the one in its record.
    ChecksumMismatch { path: String, expected: Vec<u8>, actual: Vec<u8> },
    /// The header announces another number of entries than the stream held.
    CountMismatch { declared: u64, found: u64 },
    /// The stream ends inside the header or inside an entry.
    UnexpectedEof,
    /// An entry was handed to a writer that has not written its header.
    HeaderNotWritten,
    /// The operating system delivered no random bytes for a salt or a
    /// nonce.
    NoRandomBytes,
}

/// What an `ArchiveError` says, with texts and byte runs as sequences.
pub enum Failure {
    WrongLabel,
    MissingVersionMarker,
    InvalidVersionBytes,
    FileTooOld { major: u8 },
    FileTooNew { major: u8, minor: u8 },
    MinorTooNew { major: u8, minor: u8 },
    CompressionMismatch { archive_compressed: bool },
    EncryptionMismatch { archive_encrypted: bool },
    MissingPassword,
    KeyDerivationFailed,
    EncryptionFailed,
    DecryptionFailed,
    CompressionFailed,
    DecompressionFailed,
    ChecksumMismatch { path: Seq<char>, expected: Seq<u8>, actual: Seq<u8> },
    CountMismatch { declared: u64, found: u64 },
    UnexpectedEof,
    HeaderNotWritten,
    NoRandomBytes,
}

impl View for ArchiveError {
    type V = Failure;

    open spec fn view(&self) -> Failure {
        match *self {
            ArchiveError::WrongLabel => Failure::WrongLabel,
            ArchiveError::MissingVersionMarker => Failure::MissingVersionMarker,
            ArchiveError::InvalidVersionBytes => Failure::InvalidVersionBytes,
            ArchiveError::FileTooOld { major } => Failure::FileTooOld { major },
            ArchiveError::FileTooNew { major, minor } => Failure::FileTooNew { major, minor },
            ArchiveError::MinorTooNew { major, minor } => Failure::MinorTooNew { major, minor },
            ArchiveError::CompressionMismatch { archive_compressed } => {
                Failure::CompressionMismatch { archive_compressed }
            },
            ArchiveError::EncryptionMismatch { archive_encrypted } => {
                Failure::EncryptionMismatch { archive_encrypted }
            },
            ArchiveError::MissingPassword => Failure::MissingPassword,
            ArchiveError::KeyDerivationFailed => Failure::KeyDerivationFailed,
            ArchiveError::EncryptionFailed => Failure::EncryptionFailed,
            ArchiveError::DecryptionFailed => Failure::DecryptionFailed,
            ArchiveError::CompressionFailed => Failure::CompressionFailed,
            ArchiveError::DecompressionFailed => Failure::DecompressionFailed,
            ArchiveError::ChecksumMismatch { path, expected, actual } => {
                Failure::ChecksumMismatch { path: path@, expected: expected@, actual: actual@ }
            },
            ArchiveError::CountMismatch { declared, found } => {
                Failure::CountMismatch { declared, found }
            },
            ArchiveError::UnexpectedEof => Failure::UnexpectedEof,
            ArchiveError::HeaderNotWritten => Failure::HeaderNotWritten,
            ArchiveError::NoRandomBytes => Failure::NoRandomBytes,
        }
    }
}

} // verus!
