//! # lusl
//!
//! A directory archiver: it frames the files of a directory tree into one
//! linear archive stream and restores them from it, byte for byte. Entries
//! may be compressed with zlib and sealed with XChaCha20-Poly1305 in the
//! STREAM construction; every entry carries an MD5 digest of its content,
//! which is checked on restore.
//!
//! The crate holds the codec and its two state machines. It touches no file:
//! the caller hands over the bytes it has read and writes out what it is
//! given back.

pub mod binary;
pub mod compress;
pub mod encrypt;
pub mod error;
pub mod serialize;

pub use error::ArchiveError;
pub use serialize::deserializer::{Deserializer, RestoredFile};
pub use serialize::header;
pub use serialize::meta;
pub use serialize::option::SerializeOption;
pub use serialize::serializer::{Serializer, SourceFile};
pub use serialize::version;

use serialize::header::{
    label_bytes, marked_version, Header, LABEL_LENGTH, VERSION_START_POINTER,
};
use serialize::version::Version;
use vstd::prelude::*;

verus! {

/// The version that the first bytes of an archive announce: behind the
/// label stands the marker of the version, and behind it the version.
pub open spec fn announced_version(bytes: Seq<u8>) -> Result<(u8, u8, u8), error::Failure> {
    if bytes.len() < LABEL_LENGTH || bytes.take(LABEL_LENGTH as int) != label_bytes() {
        Err(error::Failure::WrongLabel)
    } else {
        marked_version(bytes.skip(LABEL_LENGTH as int))
    }
}

/// Reads the version of an archive from its first bytes, of which 24 are
/// looked at. The version is not held against this implementation's: this
/// is how a caller finds out which version an archive asks for.
pub fn read_version(archive: &[u8]) -> (result: Result<Version, ArchiveError>)
    ensures
        match announced_version(archive@) {
            Ok(version) => result matches Ok(found) && found@ == version,
            Err(failure) => result matches Err(e) && e@ == failure,
        },
{
    let mut header = Header::new();
    if archive.len() < LABEL_LENGTH {
        return Err(ArchiveError::WrongLabel);
    }
    let label = vstd::slice::slice_subrange(archive, 0, LABEL_LENGTH);
    proof {
        assert(label@ =~= archive@.take(LABEL_LENGTH as int));
    }
    match header.deserialize_label(label) {
        Ok(_) => {},
        Err(e) => {
            return Err(e);
        },
    }
    if archive.len() == LABEL_LENGTH || archive[LABEL_LENGTH] != VERSION_START_POINTER {
        return Err(ArchiveError::MissingVersionMarker);
    }
    let rest = vstd::slice::slice_subrange(archive, LABEL_LENGTH + 1, archive.len());
    proof {
        let behind = archive@.skip(LABEL_LENGTH as int);
        assert(rest@ =~= behind.skip(1));
        if behind.len() >= 4 {
            assert(rest@.subrange(0, 3) =~= behind.subrange(1, 4));
        }
    }
    Version::from_bytes(rest)
}

} // verus!
