//! The header of an archive.
//!
//! An archive starts with the format label, a marker byte and the three
//! bytes of the format version, a byte of flags, and the number of entries
//! as a counted byte run: one byte that says how many bytes follow, and the
//! minimal little-endian bytes of the number.

use crate::binary::{
    append_bytes, binary_to_u64, decoded_u64, is_flag_true, lemma_decoded_of_minimal,
    minimal_bytes, minimal_le, same_bytes,
};
use crate::error::{ArchiveError, Failure};
use crate::serialize::buffer::PullBuffer;
use crate::serialize::option::{OptionModel, SerializeOption};
use crate::serialize::version::{
    bytes_version, compatibility, current_version, gate_error, version_bytes, Compatibility,
    Version, MAJOR_VERSION, MINOR_VERSION,
};
use vstd::prelude::*;

verus! {

/// The label that every archive starts with.
pub const FILE_LABEL: &'static str = "LUSL Serialized File";

/// Length of the label.
pub const LABEL_LENGTH: usize = 20;

/// The byte that announces the version.
pub const VERSION_START_POINTER: u8 = 0x1;

/// The flag of an encrypted archive.
pub const ENCRYPTED_FLAG: u8 = 0x80;

/// The flag of an archive with compressed entries.
pub const COMPRESSED_FLAG: u8 = 0x40;

/// The bytes of the label.
pub open spec fn label_bytes() -> Seq<u8> {
    seq![
        76u8, 85, 83, 76, 32, 83, 101, 114, 105, 97, 108, 105, 122, 101, 100, 32, 70, 105, 108, 101,
    ]
}

/// The byte of flags of an archive.
pub open spec fn flag_byte(is_encrypted: bool, is_compressed: bool) -> u8 {
    if is_encrypted {
        if is_compressed {
            0xC0
        } else {
            0x80
        }
    } else {
        if is_compressed {
            0x40
        } else {
            0x00
        }
    }
}

/// A number as a counted byte run: the count of its minimal bytes, then
/// the bytes.
pub open spec fn counted(n: u64) -> Seq<u8> {
    seq![minimal_le(n as nat).len() as u8] + minimal_le(n as nat)
}

/// The header of an archive.
#[derive(Clone, Debug, PartialEq, Eq)]
pub struct Header {
    version: Version,
    is_encrypted: bool,
    is_compressed: bool,
    file_count: u64,
}

/// What a `Header` holds.
pub struct HeaderModel {
    pub version: (u8, u8, u8),
    pub is_encrypted: bool,
    pub is_compressed: bool,
    pub file_count: u64,
}

impl View for Header {
    type V = HeaderModel;

    closed spec fn view(&self) -> HeaderModel {
        HeaderModel {
            version: self.version@,
            is_encrypted: self.is_encrypted,
            is_compressed: self.is_compressed,
            file_count: self.file_count,
        }
    }
}

/// The bytes of a header.
pub open spec fn header_bytes(header: HeaderModel) -> Seq<u8> {
    label_bytes() + seq![VERSION_START_POINTER] + version_bytes(header.version) + seq![
        flag_byte(header.is_encrypted, header.is_compressed),
    ] + counted(header.file_count)
}

/// The version that stands behind its marker at the start of `bytes`. The
/// marker must be there, and three bytes behind it.
pub open spec fn marked_version(bytes: Seq<u8>) -> Result<(u8, u8, u8), Failure> {
    if bytes.len() == 0 || bytes[0] != VERSION_START_POINTER {
        Err(Failure::MissingVersionMarker)
    } else if bytes.len() < 4 {
        Err(Failure::InvalidVersionBytes)
    } else {
        Ok(bytes_version(bytes.subrange(1, 4)))
    }
}

/// What was found at the start of a stream of which only a part may have
/// arrived yet.
pub enum Parsed<T> {
    /// A whole item, and the number of bytes that it takes.
    Complete(T, nat),
    /// The bytes so far are the start of an item, or too few to tell.
    Incomplete,
    /// The bytes cannot be the start of an item.
    Invalid(Failure),
}

/// The error of a reader whose options differ from an archive's flags.
/// Compression is looked at first.
pub open spec fn option_error(is_encrypted: bool, is_compressed: bool, option: OptionModel)
    -> Option<Failure> {
    if is_compressed != option.compress {
        Some(Failure::CompressionMismatch { archive_compressed: is_compressed })
    } else if is_encrypted != option.encrypt {
        Some(Failure::EncryptionMismatch { archive_encrypted: is_encrypted })
    } else {
        None
    }
}

/// The header at the start of `bytes`, as a reader with `option` sees it.
///
/// The fields are taken in their order, and each is judged as soon as it
/// is there: the label, the version against this implementation's, the
/// flags against `option`, and the count. Of the flags only the two that
/// are known are looked at.
pub open spec fn parse_header(bytes: Seq<u8>, option: OptionModel) -> Parsed<HeaderModel> {
    if bytes.len() < 20 {
        Parsed::Incomplete
    } else if bytes.take(20) != label_bytes() {
        Parsed::Invalid(Failure::WrongLabel)
    } else if bytes.len() < 24 {
        Parsed::Incomplete
    } else if bytes[20] != VERSION_START_POINTER {
        Parsed::Invalid(Failure::MissingVersionMarker)
    } else if gate_error(bytes_version(bytes.subrange(21, 24))) is Some {
        Parsed::Invalid(gate_error(bytes_version(bytes.subrange(21, 24)))->0)
    } else if bytes.len() < 25 {
        Parsed::Incomplete
    } else if option_error(bytes[24] & 0x80 != 0, bytes[24] & 0x40 != 0, option) is Some {
        Parsed::Invalid(option_error(bytes[24] & 0x80 != 0, bytes[24] & 0x40 != 0, option)->0)
    } else if bytes.len() < 26 || bytes.len() < 26 + bytes[25] {
        Parsed::Incomplete
    } else {
        Parsed::Complete(
            HeaderModel {
                version: bytes_version(bytes.subrange(21, 24)),
                is_encrypted: bytes[24] & 0x80 != 0,
                is_compressed: bytes[24] & 0x40 != 0,
                file_count: decoded_u64(bytes.subrange(26, 26 + bytes[25])) as u64,
            },
            (26 + bytes[25]) as nat,
        )
    }
}

impl Header {
    /// A header of this implementation's version for a plain archive
    /// without entries.
    pub fn new() -> (header: Self)
        ensures
            header@ == (HeaderModel {
                version: current_version(),
                is_encrypted: false,
                is_compressed: false,
                file_count: 0,
            }),
    {
        Header {
            version: Version::default(),
            is_encrypted: false,
            is_compressed: false,
            file_count: 0,
        }
    }

    /// A header of this implementation's version.
    pub fn with(is_encrypted: bool, is_compressed: bool, file_count: u64) -> (header: Self)
        ensures
            header@ == (HeaderModel {
                version: current_version(),
                is_encrypted,
                is_compressed,
                file_count,
            }),
    {
        Header { version: Version::default(), is_encrypted, is_compressed, file_count }
    }

    /// The version of the archive.
    pub fn version(&self) -> (version: Version)
        ensures
            version@ == self@.version,
    {
        self.version
    }

    /// Whether the archive is encrypted.
    pub fn is_encrypted(&self) -> (is_encrypted: bool)
        ensures
            is_encrypted == self@.is_encrypted,
    {
        self.is_encrypted
    }

    /// Whether the entries of the archive are compressed.
    pub fn is_compressed(&self) -> (is_compressed: bool)
        ensures
            is_compressed == self@.is_compressed,
    {
        self.is_compressed
    }

    /// The number of entries that the archive announces.
    pub fn file_count(&self) -> (file_count: u64)
        ensures
            file_count == self@.file_count,
    {
        self.file_count
    }

    /// The bytes of the header.
    pub fn to_binary_vec(&self) -> (binary: Vec<u8>)
        ensures
            binary@ == header_bytes(self@),
    {
        let mut binary: Vec<u8> = Vec::new();
        let label = self.label_to_binary();
        append_bytes(&mut binary, label.as_slice());
        let version = self.version_to_binary();
        append_bytes(&mut binary, version.as_slice());
        let flag = self.flag_to_binary();
        append_bytes(&mut binary, flag.as_slice());
        let count = self.file_count_to_binary();
        append_bytes(&mut binary, count.as_slice());
        binary
    }

    /// The bytes of the label.
    pub fn label_to_binary(&self) -> (binary: Vec<u8>)
        ensures
            binary@ == label_bytes(),
    {
        let bytes = FILE_LABEL.as_bytes();
        proof {
            reveal_strlit("LUSL Serialized File");
            vstd::string::is_ascii_spec_bytes(FILE_LABEL);
        }
        vstd::slice::slice_to_vec(bytes)
    }

    /// The marker byte and the three bytes of the version.
    pub fn version_to_binary(&self) -> (binary: Vec<u8>)
        ensures
            binary@ == seq![VERSION_START_POINTER] + version_bytes(self@.version),
    {
        let mut binary: Vec<u8> = Vec::new();
        binary.push(VERSION_START_POINTER);
        let version = self.version.to_bytes();
        append_bytes(&mut binary, version.as_slice());
        binary
    }

    /// The byte of flags: bit 7 for encryption, bit 6 for compression.
    pub fn flag_to_binary(&self) -> (binary: Vec<u8>)
        ensures
            binary@ == seq![flag_byte(self@.is_encrypted, self@.is_compressed)],
    {
        let mut binary: Vec<u8> = Vec::with_capacity(1);
        let mut flag: u8 = 0x0;
        if self.is_encrypted {
            flag += ENCRYPTED_FLAG;
        }
        if self.is_compressed {
            flag += COMPRESSED_FLAG;
        }
        binary.push(flag);
        binary
    }

    /// The number of entries as a counted byte run.
    pub fn file_count_to_binary(&self) -> (binary: Vec<u8>)
        ensures
            binary@ == counted(self@.file_count),
    {
        let run = minimal_bytes(self.file_count);
        let mut binary: Vec<u8> = Vec::new();
        binary.push(run.len() as u8);
        append_bytes(&mut binary, run.as_slice());
        binary
    }

    /// Checks the label. It must be there byte for byte.
    pub fn deserialize_label(&mut self, binary: &[u8]) -> (result: Result<(), ArchiveError>)
        ensures
            *final(self) == *old(self),
            binary@ == label_bytes() ==> result is Ok,
            binary@ != label_bytes() ==> (result matches Err(e) && e@ == Failure::WrongLabel),
    {
        let label = self.label_to_binary();
        if same_bytes(binary, label.as_slice()) {
            Ok(())
        } else {
            Err(ArchiveError::WrongLabel)
        }
    }

    /// Reads the version from the marker byte and the three bytes after it,
    /// and holds it against this implementation's: a version of another
    /// major version or of a higher minor version is refused, each with
    /// an error of its own. Where the version is not read or is refused,
    /// the header is left unchanged.
    pub fn deserialize_version(&mut self, binary: &[u8]) -> (result: Result<(), ArchiveError>)
        ensures
            match marked_version(binary@) {
                Ok(version) => match gate_error(version) {
                    None => result is Ok && final(self)@ == (HeaderModel {
                        version,
                        ..old(self)@
                    }),
                    Some(failure) => (result matches Err(e) && e@ == failure) && *final(self)
                        == *old(self),
                },
                Err(failure) => (result matches Err(e) && e@ == failure) && *final(self) == *old(
                    self,
                ),
            },
    {
        if binary.len() == 0 || binary[0] != VERSION_START_POINTER {
            return Err(ArchiveError::MissingVersionMarker);
        }
        let rest = vstd::slice::slice_subrange(binary, 1, binary.len());
        let version = match Version::from_bytes(rest) {
            Ok(version) => version,
            Err(e) => {
                return Err(e);
            },
        };
        match version.check() {
            Compatibility::Compatible => {
                self.version = version;
                Ok(())
            },
            Compatibility::TooOld => Err(ArchiveError::FileTooOld { major: version.major() }),
            Compatibility::TooNew => Err(
                ArchiveError::FileTooNew { major: version.major(), minor: version.minor() },
            ),
            Compatibility::MinorTooNew => Err(
                ArchiveError::MinorTooNew { major: version.major(), minor: version.minor() },
            ),
        }
    }

    /// Reads the flags from the first byte of `binary`. Bits other than
    /// the two known flags are not looked at. An empty `binary` leaves the
    /// header as it is.
    pub fn deserialize_flag(&mut self, binary: &[u8])
        ensures
            binary@.len() == 0 ==> *final(self) == *old(self),
            binary@.len() > 0 ==> final(self)@ == (HeaderModel {
                is_encrypted: binary@[0] & 0x80 != 0,
                is_compressed: binary@[0] & 0x40 != 0,
                ..old(self)@
            }),
    {
        if binary.len() > 0 {
            self.is_encrypted = is_flag_true(binary[0], ENCRYPTED_FLAG);
            self.is_compressed = is_flag_true(binary[0], COMPRESSED_FLAG);
        }
    }

    /// Reads the number of entries from the bytes of its byte run.
    pub fn deserialize_file_count(&mut self, binary: &[u8])
        ensures
            final(self)@ == (HeaderModel {
                file_count: decoded_u64(binary@) as u64,
                ..old(self)@
            }),
    {
        self.file_count = binary_to_u64(binary);
    }

    /// Reads the header at the front of `buffer` without taking it: the
    /// label, the version, which is held against this implementation's
    /// where it is read, the flags, which are held against `option`, and
    /// the count. The result is the header and the number of bytes that
    /// it takes, or `None` where more bytes must arrive first.
    pub fn parse(buffer: &PullBuffer, option: &SerializeOption) -> (result: Result<
        Option<(Header, usize)>,
        ArchiveError,
    >)
        ensures
            match parse_header(buffer@, option@) {
                Parsed::Complete(header, used) => result matches Ok(Some(found)) && found.0@
                    == header && found.1 == used,
                Parsed::Incomplete => result matches Ok(None),
                Parsed::Invalid(failure) => result matches Err(e) && e@ == failure,
            },
    {
        let mut header = Header::new();
        if buffer.len() < 20 {
            return Ok(None);
        }
        let label = buffer.peek(0, 20);
        match header.deserialize_label(label.as_slice()) {
            Ok(_) => {},
            Err(e) => {
                return Err(e);
            },
        }
        if buffer.len() < 24 {
            return Ok(None);
        }
        let version = buffer.peek(20, 4);
        match header.deserialize_version(version.as_slice()) {
            Ok(_) => {},
            Err(e) => {
                return Err(e);
            },
        }
        if buffer.len() < 25 {
            return Ok(None);
        }
        let flag = buffer.peek(24, 1);
        header.deserialize_flag(flag.as_slice());
        if header.is_compressed != option.is_compressed() {
            return Err(
                ArchiveError::CompressionMismatch { archive_compressed: header.is_compressed },
            );
        }
        if header.is_encrypted != option.is_encrypted() {
            return Err(
                ArchiveError::EncryptionMismatch { archive_encrypted: header.is_encrypted },
            );
        }
        if buffer.len() < 26 {
            return Ok(None);
        }
        let count_length = buffer.peek(25, 1);
        let n: usize = count_length[0] as usize;
        if buffer.len() - 26 < n {
            return Ok(None);
        }
        let count = buffer.peek(26, n);
        header.deserialize_file_count(count.as_slice());
        Ok(Some((header, 26 + n)))
    }
}

/// The two known flags are read back from the byte that was written for
/// them.
pub proof fn lemma_flag_byte_round_trip(is_encrypted: bool, is_compressed: bool)
    ensures
        (flag_byte(is_encrypted, is_compressed) & 0x80 != 0) == is_encrypted,
        (flag_byte(is_encrypted, is_compressed) & 0x40 != 0) == is_compressed,
{
    assert(0xC0u8 & 0x80 != 0 && 0xC0u8 & 0x40 != 0) by (bit_vector);
    assert(0x80u8 & 0x80 != 0 && 0x80u8 & 0x40 == 0) by (bit_vector);
    assert(0x40u8 & 0x80 == 0 && 0x40u8 & 0x40 != 0) by (bit_vector);
    assert(0x00u8 & 0x80 == 0 && 0x00u8 & 0x40 == 0) by (bit_vector);
}

/// Flags that this implementation does not know are tolerated: whatever
/// the other six bits hold, the two known flags read the same.
pub proof fn lemma_unknown_flags_are_ignored(flags: u8, other: u8)
    requires
        other & 0xC0 == 0,
    ensures
        ((flags | other) & 0x80 != 0) == (flags & 0x80 != 0),
        ((flags | other) & 0x40 != 0) == (flags & 0x40 != 0),
{
    assert(other & 0xC0 == 0 ==> ((flags | other) & 0x80) == (flags & 0x80) && ((flags | other)
        & 0x40) == (flags & 0x40)) by (bit_vector);
}

/// How many bytes a header takes.
pub open spec fn header_length(header: HeaderModel) -> nat {
    (26 + minimal_le(header.file_count as nat).len()) as nat
}

/// A header that was written is read back, whatever follows it in the
/// stream, by a reader of a compatible version whose options agree with
/// the header's flags.
pub proof fn lemma_header_round_trip(header: HeaderModel, rest: Seq<u8>, option: OptionModel)
    requires
        compatibility(header.version, current_version()) == Compatibility::Compatible,
        option.encrypt == header.is_encrypted,
        option.compress == header.is_compressed,
    ensures
        header_bytes(header).len() == header_length(header),
        parse_header(header_bytes(header) + rest, option) == Parsed::Complete(
            header,
            header_length(header),
        ),
{
    let run = minimal_le(header.file_count as nat);
    let bytes = header_bytes(header);
    let all = bytes + rest;
    lemma_decoded_of_minimal(header.file_count);
    lemma_flag_byte_round_trip(header.is_encrypted, header.is_compressed);
    assert(all.take(20) =~= label_bytes());
    assert(all.subrange(26, 26 + all[25]) =~= run);
}

/// A header is judged by the bytes that have arrived: once it is read or
/// refused, bytes that arrive later change nothing.
pub proof fn lemma_parse_header_stable(bytes: Seq<u8>, more: Seq<u8>, option: OptionModel)
    requires
        !(parse_header(bytes, option) is Incomplete),
    ensures
        parse_header(bytes + more, option) == parse_header(bytes, option),
{
    let all = bytes + more;
    assert(all.take(20) =~= bytes.take(20));
    if bytes.len() >= 26 && bytes.len() >= 26 + bytes[25] {
        assert(all.subrange(26, 26 + all[25]) =~= bytes.subrange(26, 26 + bytes[25]));
    }
}

/// Whether `bytes` starts with the label and the marker of the version,
/// and holds the three bytes of the version.
pub open spec fn announces_version(bytes: Seq<u8>) -> bool {
    &&& bytes.len() >= 24
    &&& bytes.take(20) == label_bytes()
    &&& bytes[20] == VERSION_START_POINTER
}

/// The version gate. An archive of another major version is refused,
/// whatever else it holds, and so is one of a higher minor version; an
/// archive of the reader's major version and of its minor version or a
/// lower one is not refused for its version.
pub proof fn lemma_version_gate(bytes: Seq<u8>, option: OptionModel)
    requires
        announces_version(bytes),
    ensures
        ({
            let file = bytes_version(bytes.subrange(21, 24));
            let parsed = parse_header(bytes, option);
            &&& file.0 < MAJOR_VERSION ==> parsed == Parsed::<HeaderModel>::Invalid(
                Failure::FileTooOld { major: file.0 },
            )
            &&& file.0 > MAJOR_VERSION ==> parsed == Parsed::<HeaderModel>::Invalid(
                Failure::FileTooNew { major: file.0, minor: file.1 },
            )
            &&& file.0 == MAJOR_VERSION && file.1 > MINOR_VERSION ==> parsed == Parsed::<
                HeaderModel,
            >::Invalid(Failure::MinorTooNew { major: file.0, minor: file.1 })
            &&& file.0 == MAJOR_VERSION && file.1 <= MINOR_VERSION ==> !(parsed
                matches Parsed::Invalid(failure) && (failure is FileTooOld || failure is FileTooNew
                || failure is MinorTooNew || failure is WrongLabel
                || failure is MissingVersionMarker))
        }),
{
}

/// The known flags are held against the options. Where the archive and
/// the reader disagree on compression, the archive is refused for that;
/// where they agree on it and disagree on encryption, it is refused for
/// that. The disagreement is never passed over.
pub proof fn lemma_option_gate(bytes: Seq<u8>, option: OptionModel)
    requires
        announces_version(bytes),
        bytes.len() >= 25,
        compatibility(bytes_version(bytes.subrange(21, 24)), current_version())
            == Compatibility::Compatible,
    ensures
        ({
            let is_encrypted = bytes[24] & 0x80 != 0;
            let is_compressed = bytes[24] & 0x40 != 0;
            let parsed = parse_header(bytes, option);
            &&& is_compressed != option.compress ==> parsed == Parsed::<HeaderModel>::Invalid(
                Failure::CompressionMismatch { archive_compressed: is_compressed },
            )
            &&& is_compressed == option.compress && is_encrypted != option.encrypt ==> parsed
                == Parsed::<HeaderModel>::Invalid(
                Failure::EncryptionMismatch { archive_encrypted: is_encrypted },
            )
            &&& is_compressed == option.compress && is_encrypted == option.encrypt ==> !(parsed
                is Invalid)
        }),
{
}

} // verus!
