//! The writer of an archive.
//!
//! A writer is a state machine that never touches a file: the caller asks
//! it for the bytes of the header, hands it the files one after the other,
//! and writes out the bytes that it gets for each. The header announces
//! the number of entries, and the writer holds the caller to it.
//!
//! An entry is the record of the file and then its payload. In an archive
//! with compression the payload is the compressed content, and its length
//! precedes it in eight little-endian bytes. In an encrypted archive a
//! fresh nonce and the sealed payload stand in place of the payload; the
//! salt of the key follows the header.

use crate::binary::{
    append_bytes, content_digest, fixed_bytes, le_bytes, result_view, unit_view,
};
use crate::compress::{compress, compress_outcome, zlib_deflated, COMPRESSION_LEVEL};
use crate::encrypt::{
    argon2_key, derive_outcome, derived_or_error, make_encryptor,
    make_key_from_password_and_salt, make_nonce, make_salt, sealed_payload, stream_start,
    CHUNK_LENGTH, KEY_LENGTH, NONCE_LENGTH, SALT_LENGTH,
};
use crate::error::{ArchiveError, Failure};
use crate::serialize::header::{header_bytes, Header, HeaderModel};
use crate::serialize::meta::{metadata_bytes, FileType, MetaData, MetaModel};
use crate::serialize::option::{plain_options, OptionModel, SerializeOption};
use crate::serialize::version::current_version;
use vstd::prelude::*;
use vstd::utf8::encode_utf8;

verus! {

/// A file to be archived: its path relative to the root of the archive,
/// and its content.
#[derive(Clone, Debug, PartialEq, Eq)]
pub struct SourceFile {
    path: String,
    data: Vec<u8>,
}

/// What a file holds.
pub struct FileModel {
    pub path: Seq<char>,
    pub data: Seq<u8>,
}

impl View for SourceFile {
    type V = FileModel;

    closed spec fn view(&self) -> FileModel {
        FileModel { path: self.path@, data: self.data@ }
    }
}

impl SourceFile {
    /// A file with the given path and content.
    pub fn new(path: &str, data: Vec<u8>) -> (file: Self)
        ensures
            file@ == (FileModel { path: path@, data: data@ }),
    {
        SourceFile { path: path.to_owned(), data }
    }

    /// The path of the file.
    pub fn path(&self) -> (path: &String)
        ensures
            path@ == self@.path,
    {
        &self.path
    }

    /// The content of the file.
    pub fn data(&self) -> (data: &Vec<u8>)
        ensures
            data@ == self@.data,
    {
        &self.data
    }
}

/// The record that is written for a file: that of a regular file, with
/// the length and the digest of its content.
pub open spec fn file_metadata(file: FileModel) -> MetaModel {
    MetaModel {
        path: file.path,
        size: file.data.len() as u64,
        file_type: Some(FileType::Regular),
        checksum: Some(content_digest(file.data)),
    }
}

/// The header that is written for `file_count` entries.
pub open spec fn written_header(option: OptionModel, file_count: u64) -> HeaderModel {
    HeaderModel {
        version: current_version(),
        is_encrypted: option.encrypt,
        is_compressed: option.compress,
        file_count,
    }
}

/// The payload of a file before encryption: its content, compressed
/// where the archive is.
pub open spec fn payload_body(option: OptionModel, data: Seq<u8>) -> Result<Seq<u8>, Failure> {
    if option.compress {
        compress_outcome(zlib_deflated(data, COMPRESSION_LEVEL))
    } else {
        Ok(data)
    }
}

/// What precedes a payload: in an archive with compression the length of
/// the compressed content, in eight bytes.
pub open spec fn length_prefix(option: OptionModel, body: Seq<u8>) -> Seq<u8> {
    if option.compress {
        le_bytes(body.len(), 8)
    } else {
        Seq::<u8>::empty()
    }
}

/// Whether bytes were made, or why not.
pub open spec fn unit_of(made: Result<Seq<u8>, Failure>) -> Result<(), Failure> {
    match made {
        Ok(_) => Ok(()),
        Err(failure) => Err(failure),
    }
}

/// The nonce and the sealed form of a payload. Nothing is sealed under a
/// key or a nonce of another length than the cipher's.
pub open spec fn encrypted_data(key: Seq<u8>, nonce: Seq<u8>, body: Seq<u8>) -> Result<
    Seq<u8>,
    Failure,
> {
    if key.len() != KEY_LENGTH || nonce.len() != NONCE_LENGTH {
        Err(Failure::EncryptionFailed)
    } else {
        match sealed_payload(stream_start(key, nonce), body) {
            Some(cipher) => Ok(nonce + cipher),
            None => Err(Failure::EncryptionFailed),
        }
    }
}

/// The bytes of an entry in an archive without encryption.
pub open spec fn raw_entry(option: OptionModel, file: FileModel) -> Result<Seq<u8>, Failure> {
    match payload_body(option, file.data) {
        Ok(body) => Ok(metadata_bytes(file_metadata(file)) + length_prefix(option, body) + body),
        Err(failure) => Err(failure),
    }
}

/// The bytes of an entry in an encrypted archive.
pub open spec fn sealed_entry(option: OptionModel, key: Seq<u8>, nonce: Seq<u8>, file: FileModel)
    -> Result<Seq<u8>, Failure> {
    match payload_body(option, file.data) {
        Ok(body) => match encrypted_data(key, nonce, body) {
            Ok(sealed) => Ok(
                metadata_bytes(file_metadata(file)) + length_prefix(option, body) + sealed,
            ),
            Err(failure) => Err(failure),
        },
        Err(failure) => Err(failure),
    }
}

/// The bytes of an entry.
pub open spec fn entry_bytes(option: OptionModel, key: Seq<u8>, nonce: Seq<u8>, file: FileModel)
    -> Result<Seq<u8>, Failure> {
    if option.encrypt {
        sealed_entry(option, key, nonce, file)
    } else {
        raw_entry(option, file)
    }
}

/// The state of a writer.
pub struct WriterModel {
    pub option: OptionModel,
    /// The key of the archive, once the header of an encrypted archive is
    /// written.
    pub key: Seq<u8>,
    /// Whether the header is written.
    pub started: bool,
    /// The number of entries that the header announces.
    pub declared: u64,
    /// The number of entries that are written.
    pub written: u64,
}

/// A writer with `option` that has written nothing.
pub open spec fn new_writer(option: OptionModel) -> WriterModel {
    WriterModel { option, key: Seq::<u8>::empty(), started: false, declared: 0, written: 0 }
}

/// The key of an archive: none for a plain one, and else what Argon2
/// derives from the password and the salt.
pub open spec fn archive_key(option: OptionModel, salt: Seq<u8>) -> Result<Seq<u8>, Failure> {
    if !option.encrypt {
        Ok(Seq::<u8>::empty())
    } else {
        match option.password {
            None => Err(Failure::MissingPassword),
            Some(password) => derive_outcome(argon2_key(encode_utf8(password), salt)),
        }
    }
}

/// What stands at the start of an archive: the header, and the salt where
/// the archive is encrypted.
pub open spec fn archive_start(option: OptionModel, file_count: u64, salt: Seq<u8>) -> Seq<u8> {
    if option.encrypt {
        header_bytes(written_header(option, file_count)) + salt
    } else {
        header_bytes(written_header(option, file_count))
    }
}

/// The writer after it was asked for the header, and what it returned.
/// A writer that fails stays as it is.
pub open spec fn after_header(writer: WriterModel, file_count: u64, salt: Seq<u8>) -> (
    WriterModel,
    Result<Seq<u8>, Failure>,
) {
    match archive_key(writer.option, salt) {
        Ok(key) => (
            WriterModel { key, started: true, declared: file_count, written: 0, ..writer },
            Ok(archive_start(writer.option, file_count, salt)),
        ),
        Err(failure) => (writer, Err(failure)),
    }
}

/// The writer after it was handed a file, and what it returned. No entry
/// is written before the header, and none beyond the number that the
/// header announces. A writer that fails stays as it is.
pub open spec fn after_file(writer: WriterModel, nonce: Seq<u8>, file: FileModel) -> (
    WriterModel,
    Result<Seq<u8>, Failure>,
) {
    if !writer.started {
        (writer, Err(Failure::HeaderNotWritten))
    } else if writer.written >= writer.declared {
        (
            writer,
            Err(Failure::CountMismatch { declared: writer.declared, found: writer.written }),
        )
    } else {
        match entry_bytes(writer.option, writer.key, nonce, file) {
            Ok(bytes) => (
                WriterModel { written: (writer.written + 1) as u64, ..writer },
                Ok(bytes),
            ),
            Err(failure) => (writer, Err(failure)),
        }
    }
}

/// Whether a writer of an encrypted archive was given no random bytes by
/// the operating system: it fails for that and stays unchanged. A writer
/// of a plain archive asks for none.
pub open spec fn got_no_random_bytes(
    before: WriterModel,
    after: WriterModel,
    result: Result<Seq<u8>, Failure>,
) -> bool {
    &&& before.option.encrypt
    &&& after == before
    &&& result == Err::<Seq<u8>, Failure>(Failure::NoRandomBytes)
}

/// Whether the archive of a writer is whole: the header is written, and
/// as many entries as it announces.
pub open spec fn after_finish(writer: WriterModel) -> Result<(), Failure> {
    if !writer.started {
        Err(Failure::HeaderNotWritten)
    } else if writer.written != writer.declared {
        Err(Failure::CountMismatch { declared: writer.declared, found: writer.written })
    } else {
        Ok(())
    }
}

/// The entries of `files` one after the other, the entry of file `i`
/// under nonce `i`, or the failure of the first entry that fails.
pub open spec fn entries_bytes(
    option: OptionModel,
    key: Seq<u8>,
    nonces: Seq<Seq<u8>>,
    files: Seq<FileModel>,
) -> Result<Seq<u8>, Failure>
    decreases files.len(),
{
    if files.len() == 0 {
        Ok(Seq::<u8>::empty())
    } else {
        match entry_bytes(option, key, nonces.first(), files.first()) {
            Ok(entry) => match entries_bytes(
                option,
                key,
                nonces.drop_first(),
                files.drop_first(),
            ) {
                Ok(after) => Ok(entry + after),
                Err(failure) => Err(failure),
            },
            Err(failure) => Err(failure),
        }
    }
}

/// The archive of `files` under the salt `salt` and the nonces `nonces`,
/// or the failure of the first step that fails.
pub open spec fn archive_bytes(
    option: OptionModel,
    salt: Seq<u8>,
    nonces: Seq<Seq<u8>>,
    files: Seq<FileModel>,
) -> Result<Seq<u8>, Failure> {
    match archive_key(option, salt) {
        Ok(key) => match entries_bytes(option, key, nonces, files) {
            Ok(entries) => Ok(archive_start(option, files.len() as u64, salt) + entries),
            Err(failure) => Err(failure),
        },
        Err(failure) => Err(failure),
    }
}

/// The views of files.
pub open spec fn file_views(files: Seq<SourceFile>) -> Seq<FileModel> {
    files.map_values(|file: SourceFile| file@)
}

/// Whether `nonces` holds `count` nonces of `NONCE_LENGTH` bytes.
pub open spec fn nonces_for(nonces: Seq<Seq<u8>>, count: nat) -> bool {
    &&& nonces.len() == count
    &&& forall|i: int| 0 <= i < nonces.len() ==> (#[trigger] nonces[i]).len() == NONCE_LENGTH
}

/// The writer of an archive.
pub struct Serializer {
    option: SerializeOption,
    key: Vec<u8>,
    started: bool,
    declared: u64,
    written: u64,
}

impl View for Serializer {
    type V = WriterModel;

    closed spec fn view(&self) -> WriterModel {
        WriterModel {
            option: self.option@,
            key: self.key@,
            started: self.started,
            declared: self.declared,
            written: self.written,
        }
    }
}

impl Serializer {
    /// A writer of a plain archive that has written nothing.
    pub fn new() -> (serializer: Self)
        ensures
            serializer@ == new_writer(plain_options()),
    {
        Serializer {
            option: SerializeOption::new(),
            key: Vec::new(),
            started: false,
            declared: 0,
            written: 0,
        }
    }

    /// Sets the options. The writer starts anew: the header is to be
    /// written next.
    pub fn set_option(&mut self, option: SerializeOption)
        ensures
            final(self)@ == new_writer(option@),
    {
        self.started = false;
        self.written = 0;
        self.declared = 0;
        self.key = Vec::new();
        self.option = option;
    }

    /// The bytes at the start of an archive of `file_count` entries, with
    /// `salt` as the salt of the key where the archive is encrypted.
    pub fn serialize_header_with_salt(
        &mut self,
        file_count: u64,
        salt: &[u8; SALT_LENGTH],
    ) -> (result: Result<Vec<u8>, ArchiveError>)
        ensures
            (final(self)@, result_view(result)) == after_header(old(self)@, file_count, salt@),
    {
        let header = Header::with(
            self.option.is_encrypted(),
            self.option.is_compressed(),
            file_count,
        );
        let mut bytes = header.to_binary_vec();
        if !self.option.is_encrypted() {
            self.started = false;
            self.written = 0;
            self.declared = file_count;
            self.key = Vec::new();
            self.started = true;
            return Ok(bytes);
        }
        let password = match self.option.password() {
            Some(password) => password,
            None => {
                return Err(ArchiveError::MissingPassword);
            },
        };
        let key = match derived_or_error(
            make_key_from_password_and_salt(password.as_str(), salt.as_slice()),
        ) {
            Ok(key) => key,
            Err(e) => {
                return Err(e);
            },
        };
        append_bytes(&mut bytes, salt.as_slice());
        self.started = false;
        self.written = 0;
        self.declared = file_count;
        self.key = key;
        self.started = true;
        Ok(bytes)
    }

    /// The bytes at the start of an archive of `file_count` entries. For
    /// an encrypted archive a fresh salt is drawn; where none can be
    /// drawn, the writer fails and stays unchanged.
    pub fn serialize_header(&mut self, file_count: u64) -> (result: Result<Vec<u8>, ArchiveError>)
        ensures
            got_no_random_bytes(old(self)@, final(self)@, result_view(result)) || exists|
                salt: Seq<u8>,
            |
                salt.len() == SALT_LENGTH && (final(self)@, result_view(result))
                    == #[trigger] after_header(old(self)@, file_count, salt),
    {
        let salt: [u8; SALT_LENGTH] = if self.option.is_encrypted() {
            match make_salt() {
                Some(salt) => salt,
                None => {
                    return Err(ArchiveError::NoRandomBytes);
                },
            }
        } else {
            [0u8; SALT_LENGTH]
        };
        let result = self.serialize_header_with_salt(file_count, &salt);
        result
    }

    /// Appends the payload of an entry of an archive without encryption.
    pub fn write_raw_data(out: &mut Vec<u8>, body: &[u8])
        ensures
            final(out)@ == old(out)@ + body@,
    {
        append_bytes(out, body);
    }

    /// Appends the nonce and the sealed form of the payload of an entry.
    /// The payload is sealed chunk by chunk and always ends with a chunk
    /// that is sealed as the last one. Where a chunk is refused, nothing
    /// is appended.
    pub fn write_encrypt_data(out: &mut Vec<u8>, body: &[u8], key: &[u8], nonce: &[u8]) -> (result:
        Result<(), ArchiveError>)
        ensures
            unit_view(result) == unit_of(encrypted_data(key@, nonce@, body@)),
            final(out)@ == match encrypted_data(key@, nonce@, body@) {
                Ok(sealed) => old(out)@ + sealed,
                Err(_) => old(out)@,
            },
    {
        if key.len() != KEY_LENGTH || nonce.len() != NONCE_LENGTH {
            return Err(ArchiveError::EncryptionFailed);
        }
        let mut encryptor = make_encryptor(key, nonce);
        let mut sealed: Vec<u8> = Vec::new();
        append_bytes(&mut sealed, nonce);
        let mut start: usize = 0;
        let ghost whole = sealed_payload(stream_start(key@, nonce@), body@);
        proof {
            assert(body@.skip(0) =~= body@);
        }
        while body.len() - start >= CHUNK_LENGTH
            invariant
                start <= body@.len(),
                encryptor@.key == key@,
                encryptor@.nonce == nonce@,
                sealed@.len() >= NONCE_LENGTH,
                sealed@.take(NONCE_LENGTH as int) == nonce@,
                key@.len() == KEY_LENGTH,
                nonce@.len() == NONCE_LENGTH,
                whole == sealed_payload(stream_start(key@, nonce@), body@),
                whole == match sealed_payload(encryptor@, body@.skip(start as int)) {
                    Some(rest) => Some(sealed@.skip(NONCE_LENGTH as int) + rest),
                    None => None,
                },
            decreases body@.len() - start,
        {
            let chunk = vstd::slice::slice_subrange(body, start, start + CHUNK_LENGTH);
            let ghost rest = body@.skip(start as int);
            proof {
                assert(rest.take(CHUNK_LENGTH as int) =~= chunk@);
                assert(rest.skip(CHUNK_LENGTH as int) =~= body@.skip(start + CHUNK_LENGTH));
            }
            match encryptor.encrypt_next(chunk) {
                Ok(part) => {
                    append_bytes(&mut sealed, part.as_slice());
                },
                Err(e) => {
                    return Err(e);
                },
            }
            start = start + CHUNK_LENGTH;
        }
        let last = vstd::slice::slice_subrange(body, start, body.len());
        match encryptor.encrypt_last(last) {
            Ok(part) => {
                append_bytes(&mut sealed, part.as_slice());
                append_bytes(out, sealed.as_slice());
                Ok(())
            },
            Err(e) => Err(e),
        }
    }

    /// The payload of a file before encryption, and what precedes it.
    fn prepare_body(&self, data: &[u8], out: &mut Vec<u8>) -> (result: Result<
        Vec<u8>,
        ArchiveError,
    >)
        ensures
            result_view(result) == payload_body(self@.option, data@),
            final(out)@ == match payload_body(self@.option, data@) {
                Ok(body) => old(out)@ + length_prefix(self@.option, body),
                Err(_) => old(out)@,
            },
    {
        if self.option.is_compressed() {
            match compress(data) {
                Ok(body) => {
                    let prefix = fixed_bytes(body.len() as u64);
                    append_bytes(out, prefix.as_slice());
                    Ok(body)
                },
                Err(e) => Err(e),
            }
        } else {
            Ok(vstd::slice::slice_to_vec(data))
        }
    }

    /// The bytes of the entry of `file` in an archive without encryption.
    pub fn serialize_raw(&self, file: &SourceFile) -> (result: Result<Vec<u8>, ArchiveError>)
        ensures
            result_view(result) == raw_entry(self@.option, file@),
    {
        let metadata = MetaData::from(file.path.as_str(), file.data.as_slice());
        let mut bytes = metadata.serialize();
        match self.prepare_body(file.data.as_slice(), &mut bytes) {
            Ok(body) => {
                Self::write_raw_data(&mut bytes, body.as_slice());
                Ok(bytes)
            },
            Err(e) => Err(e),
        }
    }

    /// The bytes of the entry of `file` in an encrypted archive, sealed
    /// under `key` and `nonce`.
    pub fn serialize_with_encrypt(&self, file: &SourceFile, key: &[u8], nonce: &[u8]) -> (result:
        Result<Vec<u8>, ArchiveError>)
        ensures
            result_view(result) == sealed_entry(self@.option, key@, nonce@, file@),
    {
        let metadata = MetaData::from(file.path.as_str(), file.data.as_slice());
        let mut bytes = metadata.serialize();
        match self.prepare_body(file.data.as_slice(), &mut bytes) {
            Ok(body) => match Self::write_encrypt_data(&mut bytes, body.as_slice(), key, nonce) {
                Ok(_) => Ok(bytes),
                Err(e) => Err(e),
            },
            Err(e) => Err(e),
        }
    }

    /// The bytes of the entry of `file`, with `nonce` as its nonce where
    /// the archive is encrypted.
    pub fn serialize_file_with_nonce(
        &mut self,
        file: &SourceFile,
        nonce: &[u8; NONCE_LENGTH],
    ) -> (result: Result<Vec<u8>, ArchiveError>)
        ensures
            (final(self)@, result_view(result)) == after_file(old(self)@, nonce@, file@),
    {
        if !self.started {
            return Err(ArchiveError::HeaderNotWritten);
        }
        if self.written >= self.declared {
            return Err(
                ArchiveError::CountMismatch { declared: self.declared, found: self.written },
            );
        }
        let result = if self.option.is_encrypted() {
            self.serialize_with_encrypt(file, self.key.as_slice(), nonce.as_slice())
        } else {
            self.serialize_raw(file)
        };
        if result.is_ok() {
            self.written = self.written + 1;
        }
        result
    }

    /// The bytes of the entry of `file`. For an encrypted archive a fresh
    /// nonce is drawn; where none can be drawn, the writer fails and
    /// stays unchanged.
    pub fn serialize_file(&mut self, file: &SourceFile) -> (result: Result<Vec<u8>, ArchiveError>)
        ensures
            got_no_random_bytes(old(self)@, final(self)@, result_view(result)) || exists|
                nonce: Seq<u8>,
            |
                nonce.len() == NONCE_LENGTH && (final(self)@, result_view(result))
                    == #[trigger] after_file(old(self)@, nonce, file@),
    {
        let nonce: [u8; NONCE_LENGTH] = if self.option.is_encrypted() {
            match make_nonce() {
                Some(nonce) => nonce,
                None => {
                    return Err(ArchiveError::NoRandomBytes);
                },
            }
        } else {
            [0u8; NONCE_LENGTH]
        };
        let result = self.serialize_file_with_nonce(file, &nonce);
        result
    }

    /// Whether the archive is whole.
    pub fn finish(&self) -> (result: Result<(), ArchiveError>)
        ensures
            unit_view(result) == after_finish(self@),
    {
        if !self.started {
            Err(ArchiveError::HeaderNotWritten)
        } else if self.written != self.declared {
            Err(ArchiveError::CountMismatch { declared: self.declared, found: self.written })
        } else {
            Ok(())
        }
    }

    /// The whole archive of `files`: the header, which announces their
    /// number, and their entries in their order. For an encrypted archive
    /// a fresh salt is drawn, and a fresh nonce for every file; where one
    /// cannot be drawn, the writer fails for that.
    pub fn serialize(&mut self, files: &Vec<SourceFile>) -> (result: Result<Vec<u8>, ArchiveError>)
        ensures
            final(self)@.option == old(self)@.option,
            result is Ok ==> after_finish(final(self)@) == Ok::<(), Failure>(()),
            (old(self)@.option.encrypt && result_view(result) == Err::<Seq<u8>, Failure>(
                Failure::NoRandomBytes,
            )) || exists|salt: Seq<u8>, nonces: Seq<Seq<u8>>|
                salt.len() == SALT_LENGTH && nonces_for(nonces, files@.len())
                    && result_view(result) == #[trigger] archive_bytes(
                    old(self)@.option,
                    salt,
                    nonces,
                    file_views(files@),
                ),
    {
        let count: u64 = files.len() as u64;
        let ghost option = self@.option;
        let ghost start = self@;
        let ghost all = file_views(files@);
        let header = self.serialize_header(count);
        if got_random_bytes_failure(&header, self.option.is_encrypted()) {
            return header;
        }
        let ghost salt = choose|salt: Seq<u8>|
            salt.len() == SALT_LENGTH && (self@, result_view(header)) == #[trigger] after_header(
                start,
                count,
                salt,
            );
        let mut archive = match header {
            Ok(bytes) => bytes,
            Err(e) => {
                proof {
                    let nonces = empty_nonces(files@.len());
                    assert(result_view(header) == archive_bytes(option, salt, nonces, all));
                }
                return Err(e);
            },
        };
        let ghost key = archive_key(option, salt)->Ok_0;
        let ghost mut nonces: Seq<Seq<u8>> = Seq::empty();
        let ghost mut entries: Seq<u8> = Seq::empty();
        let mut i: usize = 0;
        while i < files.len()
            invariant
                i <= files@.len(),
                count == files@.len(),
                all == file_views(files@),
                option == old(self)@.option,
                salt.len() == SALT_LENGTH,
                nonces_for(nonces, i as nat),
                archive_key(option, salt) == Ok::<Seq<u8>, Failure>(key),
                self@ == (WriterModel {
                    option,
                    key,
                    started: true,
                    declared: count,
                    written: i as u64,
                }),
                entries_bytes(option, key, nonces, all.take(i as int)) == Ok::<Seq<u8>, Failure>(
                    entries,
                ),
                archive@ == archive_start(option, count, salt) + entries,
            decreases files@.len() - i,
        {
            let ghost before = self@;
            let ghost file = files@[i as int]@;
            let entry = self.serialize_file(&files[i]);
            if got_random_bytes_failure(&entry, self.option.is_encrypted()) {
                return entry;
            }
            let ghost nonce = choose|nonce: Seq<u8>|
                nonce.len() == NONCE_LENGTH && (self@, result_view(entry))
                    == #[trigger] after_file(before, nonce, file);
            proof {
                assert(all.take(i + 1) =~= all.take(i as int).push(file));
                lemma_entries_append(option, key, nonces, all.take(i as int), nonce, file);
            }
            match entry {
                Ok(bytes) => {
                    append_bytes(&mut archive, bytes.as_slice());
                    proof {
                        entries = entries + bytes@;
                        nonces = nonces.push(nonce);
                    }
                },
                Err(e) => {
                    proof {
                        let rest = (files@.len() - i - 1) as nat;
                        let padded = nonces.push(nonce) + empty_nonces(rest);
                        lemma_entries_failure_stays(
                            option,
                            key,
                            nonces.push(nonce),
                            all.take(i + 1),
                            empty_nonces(rest),
                            all.skip(i + 1),
                        );
                        assert(all.take(i + 1) + all.skip(i + 1) =~= all);
                        assert(result_view(entry) == archive_bytes(option, salt, padded, all));
                    }
                    return Err(e);
                },
            }
            i = i + 1;
        }
        proof {
            assert(all.take(i as int) =~= all);
            assert(result_view(Ok::<Vec<u8>, ArchiveError>(archive)) == archive_bytes(
                option,
                salt,
                nonces,
                all,
            ));
        }
        Ok(archive)
    }
}

/// Whether `result` is the failure of a writer of an encrypted archive
/// that was given no random bytes.
fn got_random_bytes_failure(result: &Result<Vec<u8>, ArchiveError>, encrypted: bool) -> (failed:
    bool)
    ensures
        failed == (encrypted && result_view(*result) == Err::<Seq<u8>, Failure>(
            Failure::NoRandomBytes,
        )),
{
    match result {
        Err(ArchiveError::NoRandomBytes) => encrypted,
        _ => false,
    }
}

/// `count` nonces of zero bytes.
pub open spec fn empty_nonces(count: nat) -> Seq<Seq<u8>> {
    Seq::new(count, |i: int| Seq::new(NONCE_LENGTH as nat, |j: int| 0u8))
}

/// The entries of files with one more file behind them are the entries of
/// the files and then the entry of that file.
pub proof fn lemma_entries_append(
    option: OptionModel,
    key: Seq<u8>,
    nonces: Seq<Seq<u8>>,
    files: Seq<FileModel>,
    nonce: Seq<u8>,
    file: FileModel,
)
    requires
        nonces.len() == files.len(),
    ensures
        entries_bytes(option, key, nonces.push(nonce), files.push(file)) == match entries_bytes(
            option,
            key,
            nonces,
            files,
        ) {
            Ok(before) => match entry_bytes(option, key, nonce, file) {
                Ok(entry) => Ok(before + entry),
                Err(failure) => Err(failure),
            },
            Err(failure) => Err(failure),
        },
    decreases files.len(),
{
    let more_nonces = nonces.push(nonce);
    let more_files = files.push(file);
    if files.len() == 0 {
        assert(entries_bytes(option, key, more_nonces.drop_first(), more_files.drop_first())
            == Ok::<Seq<u8>, Failure>(Seq::<u8>::empty()));
        if entry_bytes(option, key, nonce, file) is Ok {
            let entry = entry_bytes(option, key, nonce, file)->Ok_0;
        }
    } else {
        lemma_entries_append(option, key, nonces.drop_first(), files.drop_first(), nonce, file);
        assert(more_nonces.drop_first() =~= nonces.drop_first().push(nonce));
        assert(more_files.drop_first() =~= files.drop_first().push(file));
        let first = entry_bytes(option, key, nonces.first(), files.first());
        let rest = entries_bytes(option, key, nonces.drop_first(), files.drop_first());
        let last = entry_bytes(option, key, nonce, file);
        if first is Ok && rest is Ok && last is Ok {
            assert(first->Ok_0 + (rest->Ok_0 + last->Ok_0) =~= (first->Ok_0 + rest->Ok_0)
                + last->Ok_0);
        }
    }
}

/// Where an entry fails, the archive fails with it, whatever files come
/// after.
pub proof fn lemma_entries_failure_stays(
    option: OptionModel,
    key: Seq<u8>,
    nonces: Seq<Seq<u8>>,
    files: Seq<FileModel>,
    more_nonces: Seq<Seq<u8>>,
    more_files: Seq<FileModel>,
)
    requires
        nonces.len() == files.len(),
        entries_bytes(option, key, nonces, files) is Err,
    ensures
        entries_bytes(option, key, nonces + more_nonces, files + more_files) == entries_bytes(
            option,
            key,
            nonces,
            files,
        ),
    decreases files.len(),
{
    let all_nonces = nonces + more_nonces;
    let all_files = files + more_files;
    if entry_bytes(option, key, nonces.first(), files.first()) is Ok {
        lemma_entries_failure_stays(
            option,
            key,
            nonces.drop_first(),
            files.drop_first(),
            more_nonces,
            more_files,
        );
        assert(all_nonces.drop_first() =~= nonces.drop_first() + more_nonces);
        assert(all_files.drop_first() =~= files.drop_first() + more_files);
    }
}

} // verus!
