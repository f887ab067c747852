//! The reader of an archive.
//!
//! A reader is a state machine that never touches a file: the caller
//! hands it the chunks of the stream as they come, at whatever boundaries
//! the source cuts them, and gets back the files that have become
//! complete. What has arrived of an item that is not complete waits in
//! the pull-buffer. An item is taken from the buffer only when it is
//! whole and sound; an item that is refused stays where it is, and no
//! byte of a later entry is touched.
//!
//! The reader first reads the header and holds it against its options,
//! then, in an encrypted archive, the salt, and then entry after entry
//! until the stream ends. Only then is the number of entries held
//! against the number that the header announces.
//!
//! The content of every entry is held against the checksum of its
//! record. The first content that fails ends the restore: the files
//! before it stay restored, what was restored of the failing entry is
//! handed out last, so that the caller leaves it in place, and nothing
//! is made of the entries behind it.

use crate::binary::{
    binary_to_u64, checksum_outcome, content_digest, decoded_u64, result_view, unit_view,
    verify_checksum,
};
use crate::compress::{decompress, decompress_outcome, zlib_inflated};
use crate::encrypt::{
    derived_or_error, make_decryptor, make_key_from_password_and_salt, open_outcome,
    opened_payload, sealed_length, stream_start, CHUNK_LENGTH, KEY_LENGTH, NONCE_LENGTH,
    SALT_LENGTH, TAG_LENGTH,
};
use crate::error::{ArchiveError, Failure};
use crate::serialize::buffer::{window, PullBuffer};
use crate::serialize::laws::lemma_refused_content_is_handed_out;
use crate::serialize::header::{parse_header, Header, Parsed, LABEL_LENGTH};
use crate::serialize::meta::{checksum_field, parse_metadata, MetaData, MetaModel};
use crate::serialize::option::{plain_options, OptionModel, SerializeOption};
use crate::serialize::serializer::archive_key;
use vstd::prelude::*;

verus! {

/// A file that was restored from an archive: its record and its content.
#[derive(Clone, Debug, PartialEq, Eq)]
pub struct RestoredFile {
    metadata: MetaData,
    data: Vec<u8>,
}

/// What a restored file holds.
pub struct RestoredModel {
    pub metadata: MetaModel,
    pub data: Seq<u8>,
}

impl View for RestoredFile {
    type V = RestoredModel;

    closed spec fn view(&self) -> RestoredModel {
        RestoredModel { metadata: self.metadata@, data: self.data@ }
    }
}

impl RestoredFile {
    /// The record of the file.
    pub fn metadata(&self) -> (metadata: &MetaData)
        ensures
            metadata@ == self@.metadata,
    {
        &self.metadata
    }

    /// The path of the file, relative to the root of the archive.
    pub fn path(&self) -> (path: &String)
        ensures
            path@ == self@.metadata.path,
    {
        self.metadata.path()
    }

    /// The content of the file.
    pub fn data(&self) -> (data: &Vec<u8>)
        ensures
            data@ == self@.data,
    {
        &self.data
    }
}

/// What a reader expects next.
#[derive(Clone, Copy, Debug, PartialEq, Eq, Structural)]
pub enum Stage {
    /// The header.
    Header,
    /// The salt of an encrypted archive.
    Salt,
    /// An entry, or the end of the stream.
    Entries,
}

/// The state of a reader.
pub struct ReaderModel {
    pub option: OptionModel,
    pub stage: Stage,
    /// The bytes that have arrived and are not taken yet.
    pub buffer: Seq<u8>,
    /// The key of the archive, once the salt is read.
    pub key: Seq<u8>,
    /// The number of entries that the header announces.
    pub declared: u64,
    /// The number of entries that are restored.
    pub restored: u64,
}

/// A reader with `option` to which nothing has arrived.
pub open spec fn new_reader(option: OptionModel) -> ReaderModel {
    ReaderModel {
        option,
        stage: Stage::Header,
        buffer: Seq::<u8>::empty(),
        key: Seq::<u8>::empty(),
        declared: 0,
        restored: 0,
    }
}

/// The reader `reader` after `chunk` has arrived.
pub open spec fn fed(reader: ReaderModel, chunk: Seq<u8>) -> ReaderModel {
    ReaderModel { buffer: reader.buffer + chunk, ..reader }
}

/// How many bytes store a payload of `length` bytes: in an encrypted
/// archive the nonce and the sealed payload.
pub open spec fn stored_length(option: OptionModel, length: nat) -> nat {
    if option.encrypt {
        NONCE_LENGTH as nat + sealed_length(length)
    } else {
        length
    }
}

/// Where the stored payload of an entry lies.
pub struct Frame {
    pub metadata: MetaModel,
    /// The position of the stored payload from the start of the entry.
    pub start: nat,
    /// The number of bytes of the stored payload.
    pub length: nat,
}

/// The frame of the entry at the start of `bytes`: its record, and from
/// the record, and the length prefix where entries are compressed, the
/// place of its stored payload. The frame is complete when all bytes of
/// the entry have arrived.
pub open spec fn parse_frame(bytes: Seq<u8>, option: OptionModel) -> Parsed<Frame> {
    match parse_metadata(bytes) {
        Parsed::Complete(metadata, used) => {
            let prefix: nat = if option.compress {
                8
            } else {
                0
            };
            if bytes.len() < used + prefix {
                Parsed::Incomplete
            } else {
                let length: nat = if option.compress {
                    decoded_u64(bytes.subrange(used as int, (used + 8) as int))
                } else {
                    metadata.size as nat
                };
                let total = used + prefix + stored_length(option, length);
                if bytes.len() < total {
                    Parsed::Incomplete
                } else {
                    Parsed::Complete(
                        Frame {
                            metadata,
                            start: used + prefix,
                            length: stored_length(option, length),
                        },
                        total,
                    )
                }
            }
        },
        Parsed::Incomplete => Parsed::Incomplete,
        Parsed::Invalid(failure) => Parsed::Invalid(failure),
    }
}

/// The payload that a nonce and the sealed payload behind it hold. A
/// key that is no key opens nothing.
pub open spec fn decrypted_data(key: Seq<u8>, stored: Seq<u8>) -> Result<Seq<u8>, Failure> {
    if key.len() != KEY_LENGTH || stored.len() < NONCE_LENGTH {
        Err(Failure::DecryptionFailed)
    } else {
        open_outcome(
            opened_payload(
                stream_start(key, stored.take(NONCE_LENGTH as int)),
                stored.skip(NONCE_LENGTH as int),
            ),
        )
    }
}

/// The content that a payload holds: the payload is decompressed where
/// entries are compressed.
pub open spec fn unpacked_data(option: OptionModel, body: Seq<u8>) -> Result<Seq<u8>, Failure> {
    if option.compress {
        decompress_outcome(zlib_inflated(body))
    } else {
        Ok(body)
    }
}

/// The content that a stored payload holds: the payload is opened where
/// the archive is encrypted, and then decompressed where entries are
/// compressed.
pub open spec fn restored_data(option: OptionModel, key: Seq<u8>, stored: Seq<u8>) -> Result<
    Seq<u8>,
    Failure,
> {
    let body = if option.encrypt {
        decrypted_data(key, stored)
    } else {
        Ok(stored)
    };
    match body {
        Ok(body) => unpacked_data(option, body),
        Err(failure) => Err(failure),
    }
}

/// What a reader finds of the entry at the front of the stream.
pub enum EntryModel {
    /// More bytes must arrive before the entry is whole.
    Waiting,
    /// The entry is whole and its content has the digest that its record
    /// tells: the file, and the number of bytes of the entry.
    Sound(RestoredModel, nat),
    /// The entry is whole and its content was restored, but it has
    /// another digest than its record tells: the file as it was restored,
    /// and the mismatch.
    Damaged(RestoredModel, Failure),
    /// The content of the entry cannot be restored.
    Unreadable(Failure),
}

/// The judgement of a record and the content that was restored for it:
/// the content is held against the checksum of the record. Content that
/// fails is still content: it is kept beside the failure.
pub open spec fn judged_file(metadata: MetaModel, data: Result<Seq<u8>, Failure>, total: nat)
    -> EntryModel {
    match data {
        Ok(data) => match checksum_outcome(
            metadata.path,
            metadata.checksum,
            content_digest(data),
        ) {
            Ok(_) => EntryModel::Sound(RestoredModel { metadata, data }, total),
            Err(failure) => EntryModel::Damaged(RestoredModel { metadata, data }, failure),
        },
        Err(failure) => EntryModel::Unreadable(failure),
    }
}

/// The entry at the start of `bytes`.
pub open spec fn parse_entry(bytes: Seq<u8>, option: OptionModel, key: Seq<u8>) -> EntryModel {
    match parse_frame(bytes, option) {
        Parsed::Complete(frame, total) => judged_file(
            frame.metadata,
            restored_data(option, key, bytes.subrange(frame.start as int, total as int)),
            total,
        ),
        Parsed::Incomplete => EntryModel::Waiting,
        Parsed::Invalid(failure) => EntryModel::Unreadable(failure),
    }
}

/// What a reader does with the bytes that wait.
pub enum Step {
    /// An item was taken: the reader after it, and the file if the item
    /// was an entry.
    Taken(ReaderModel, Option<RestoredModel>),
    /// More bytes must arrive before the next item is whole.
    Waiting,
    /// The next item is refused, and the reader stays where it is. Where
    /// the item is an entry whose content was restored and has another
    /// digest than its record tells, the file is handed out as it was
    /// restored.
    Refused(Failure, Option<RestoredModel>),
}

/// The next step of a reader.
pub open spec fn step(reader: ReaderModel) -> Step {
    match reader.stage {
        Stage::Header => match parse_header(reader.buffer, reader.option) {
            Parsed::Complete(header, used) => if header.is_encrypted && reader.option.password
                is None {
                Step::Refused(Failure::MissingPassword, None)
            } else {
                Step::Taken(
                    ReaderModel {
                        stage: if header.is_encrypted {
                            Stage::Salt
                        } else {
                            Stage::Entries
                        },
                        buffer: reader.buffer.skip(used as int),
                        declared: header.file_count,
                        ..reader
                    },
                    None,
                )
            },
            Parsed::Incomplete => Step::Waiting,
            Parsed::Invalid(failure) => Step::Refused(failure, None),
        },
        Stage::Salt => if reader.buffer.len() < SALT_LENGTH {
            Step::Waiting
        } else {
            match archive_key(reader.option, reader.buffer.take(SALT_LENGTH as int)) {
                Ok(key) => Step::Taken(
                    ReaderModel {
                        stage: Stage::Entries,
                        buffer: reader.buffer.skip(SALT_LENGTH as int),
                        key,
                        ..reader
                    },
                    None,
                ),
                Err(failure) => Step::Refused(failure, None),
            }
        },
        Stage::Entries => match parse_entry(reader.buffer, reader.option, reader.key) {
            EntryModel::Sound(file, used) => if reader.restored == u64::MAX {
                Step::Refused(
                    Failure::CountMismatch { declared: reader.declared, found: reader.restored },
                    None,
                )
            } else {
                Step::Taken(
                    ReaderModel {
                        buffer: reader.buffer.skip(used as int),
                        restored: (reader.restored + 1) as u64,
                        ..reader
                    },
                    Some(file),
                )
            },
            EntryModel::Waiting => Step::Waiting,
            EntryModel::Damaged(file, failure) => Step::Refused(failure, Some(file)),
            EntryModel::Unreadable(failure) => Step::Refused(failure, None),
        },
    }
}

/// The view of the result of a step that takes the header or the salt.
pub open spec fn taken_view(result: Result<bool, ArchiveError>) -> Result<bool, Failure> {
    match result {
        Ok(taken) => Ok(taken),
        Err(e) => Err(e@),
    }
}

/// Whether a reader that stood at `before` and stands at `after` has made
/// its next step, and `result` tells it: an item was taken, or none was
/// and the reader stands where it stood.
pub open spec fn made_step(before: ReaderModel, after: ReaderModel, result: Result<bool, Failure>)
    -> bool {
    match step(before) {
        Step::Taken(next, file) => result == Ok::<bool, Failure>(true) && after == next,
        Step::Waiting => result == Ok::<bool, Failure>(false) && after == before,
        Step::Refused(failure, _) => result == Err::<bool, Failure>(failure) && after
            == before,
    }
}

/// What a reader has done when it can do no more.
pub struct Drained {
    /// The reader at the end.
    pub reader: ReaderModel,
    /// The files that were restored, in their order.
    pub files: Seq<RestoredModel>,
    /// Why the reader stopped, if it was refused an item.
    pub failure: Option<Failure>,
}

/// The files of one step.
pub open spec fn step_files(file: Option<RestoredModel>) -> Seq<RestoredModel> {
    match file {
        Some(f) => seq![f],
        None => Seq::<RestoredModel>::empty(),
    }
}

/// The files that a step hands out: the file of an entry that is taken,
/// and the file of an entry that is refused for its checksum.
pub open spec fn handed_out(step: Step) -> Seq<RestoredModel> {
    match step {
        Step::Taken(_, file) => step_files(file),
        Step::Waiting => Seq::<RestoredModel>::empty(),
        Step::Refused(_, file) => step_files(file),
    }
}

/// The reader after a step: only an item that is taken moves it.
pub open spec fn step_reader(reader: ReaderModel, step: Step) -> ReaderModel {
    match step {
        Step::Taken(next, _) => next,
        _ => reader,
    }
}

/// What a step tells of itself.
pub open spec fn step_result(step: Step) -> Result<Progress, Failure> {
    match step {
        Step::Taken(_, Some(_)) => Ok(Progress::Restored),
        Step::Taken(_, None) => Ok(Progress::Moved),
        Step::Waiting => Ok(Progress::Waiting),
        Step::Refused(failure, _) => Err(failure),
    }
}

/// A reader takes item after item from the bytes that wait until the
/// next item is not whole or is refused. The file of an entry that is
/// refused for its checksum is the last that is handed out: the restore
/// ends there, and what was restored of the entry is left to the caller.
#[verifier::opaque]
pub open spec fn drain(reader: ReaderModel) -> Drained
    decreases reader.buffer.len(),
{
    match step(reader) {
        Step::Taken(next, file) => if next.buffer.len() < reader.buffer.len() {
            let rest = drain(next);
            Drained { files: step_files(file) + rest.files, ..rest }
        } else {
            Drained { reader, files: Seq::<RestoredModel>::empty(), failure: None }
        },
        Step::Waiting => Drained { reader, files: Seq::<RestoredModel>::empty(), failure: None },
        Step::Refused(failure, file) => Drained {
            reader,
            files: step_files(file),
            failure: Some(failure),
        },
    }
}

/// Whether `failure` is the mismatch between the checksum of the record of
/// `file` and the digest of its content.
pub open spec fn mismatch_of(failure: Failure, file: RestoredModel) -> bool {
    &&& checksum_field(file.metadata.checksum) != content_digest(file.data)
    &&& failure == Failure::ChecksumMismatch {
        path: file.metadata.path,
        expected: checksum_field(file.metadata.checksum),
        actual: content_digest(file.data),
    }
}

/// Whether a reader that stopped at a checksum mismatch has handed out,
/// as the last file, what was restored of the refused entry.
pub open spec fn refused_content_is_last(read: Drained) -> bool {
    read.failure is Some && read.failure->0 is ChecksumMismatch ==> read.files.len() > 0
        && mismatch_of(read.failure->0, read.files.last())
}

/// What the end of the stream means to a reader that has taken all it
/// could. In the header or the salt the stream is cut short; a stream
/// that ends before the label is whole does not have the label. After
/// that, bytes that wait are the start of an entry that is cut short,
/// and the number of entries must be the number that the header
/// announces.
pub open spec fn end_of_stream(reader: ReaderModel) -> Result<(), Failure> {
    match reader.stage {
        Stage::Header => if reader.buffer.len() < LABEL_LENGTH {
            Err(Failure::WrongLabel)
        } else {
            Err(Failure::UnexpectedEof)
        },
        Stage::Salt => Err(Failure::UnexpectedEof),
        Stage::Entries => if reader.buffer.len() > 0 {
            Err(Failure::UnexpectedEof)
        } else if reader.restored != reader.declared {
            Err(Failure::CountMismatch { declared: reader.declared, found: reader.restored })
        } else {
            Ok(())
        },
    }
}

/// The views of restored files.
pub open spec fn restored_views(files: Seq<RestoredFile>) -> Seq<RestoredModel> {
    files.map_values(|file: RestoredFile| file@)
}

/// What one step of a reader has done.
#[derive(Clone, Copy, Debug, PartialEq, Eq, Structural)]
pub enum Progress {
    /// More bytes must arrive.
    Waiting,
    /// The header or the salt was taken.
    Moved,
    /// An entry was taken and its file handed out.
    Restored,
}

/// The view of the result of a step.
pub open spec fn progress_view(result: Result<Progress, ArchiveError>) -> Result<
    Progress,
    Failure,
> {
    match result {
        Ok(progress) => Ok(progress),
        Err(e) => Err(e@),
    }
}

/// What a reader finds of the entry at the front of its buffer.
#[derive(Clone, Debug, PartialEq, Eq)]
pub enum Entry {
    /// More bytes must arrive before the entry is whole.
    Waiting,
    /// The entry is whole and sound: the file, and the number of bytes of
    /// the entry.
    Sound(RestoredFile, usize),
    /// The content of the entry was restored, but it has another digest
    /// than its record tells: the file as it was restored, and the
    /// mismatch.
    Damaged(RestoredFile, ArchiveError),
    /// The content of the entry cannot be restored.
    Unreadable(ArchiveError),
}

impl View for Entry {
    type V = EntryModel;

    open spec fn view(&self) -> EntryModel {
        match *self {
            Entry::Waiting => EntryModel::Waiting,
            Entry::Sound(file, used) => EntryModel::Sound(file@, used as nat),
            Entry::Damaged(file, error) => EntryModel::Damaged(file@, error@),
            Entry::Unreadable(error) => EntryModel::Unreadable(error@),
        }
    }
}

/// The reader of an archive.
pub struct Deserializer {
    option: SerializeOption,
    buffer: PullBuffer,
    stage: Stage,
    key: Vec<u8>,
    declared: u64,
    restored: u64,
}

impl View for Deserializer {
    type V = ReaderModel;

    closed spec fn view(&self) -> ReaderModel {
        ReaderModel {
            option: self.option@,
            stage: self.stage,
            buffer: self.buffer@,
            key: self.key@,
            declared: self.declared,
            restored: self.restored,
        }
    }
}

impl Deserializer {
    /// A reader of a plain archive to which nothing has arrived.
    pub fn new() -> (deserializer: Self)
        ensures
            deserializer@ == new_reader(plain_options()),
    {
        Deserializer {
            option: SerializeOption::new(),
            buffer: PullBuffer::new(),
            stage: Stage::Header,
            key: Vec::new(),
            declared: 0,
            restored: 0,
        }
    }

    /// Sets the options. The reader starts anew: what had arrived is
    /// dropped, and the header is expected next.
    pub fn set_option(&mut self, option: SerializeOption)
        ensures
            final(self)@ == new_reader(option@),
    {
        self.stage = Stage::Header;
        self.buffer = PullBuffer::new();
        self.key = Vec::new();
        self.declared = 0;
        self.restored = 0;
        self.option = option;
    }

    /// What the reader expects next.
    pub fn stage(&self) -> (stage: Stage)
        ensures
            stage == self@.stage,
    {
        self.stage
    }

    /// The number of entries that the header announces. It is known once
    /// the header is read.
    pub fn file_count(&self) -> (declared: u64)
        ensures
            declared == self@.declared,
    {
        self.declared
    }

    /// The number of entries that are restored.
    pub fn restored_count(&self) -> (restored: u64)
        ensures
            restored == self@.restored,
    {
        self.restored
    }

    /// The number of bytes that have arrived and are not taken yet.
    pub fn buffered(&self) -> (waiting: usize)
        ensures
            waiting == self@.buffer.len(),
    {
        self.buffer.len()
    }

    /// Takes in a chunk that the source has delivered.
    pub fn fill_buf(&mut self, chunk: &[u8])
        ensures
            final(self)@ == fed(old(self)@, chunk@),
    {
        self.buffer.fill(chunk);
    }

    /// Takes `length` bytes from the buffer, or all that wait where they
    /// are fewer.
    fn fill_buf_with_len(&mut self, length: usize) -> (bytes: Vec<u8>)
        ensures
            bytes@ == window(old(self)@.buffer, 0, length as nat),
            final(self)@ == (ReaderModel {
                buffer: old(self)@.buffer.skip(bytes@.len() as int),
                ..old(self)@
            }),
    {
        self.buffer.pull(length)
    }

    /// Reads the header when it is whole, holds it against the options,
    /// and takes it from the buffer. Returns whether the header was taken.
    fn verify_header(&mut self) -> (result: Result<bool, ArchiveError>)
        requires
            old(self)@.stage == Stage::Header,
        ensures
            made_step(old(self)@, final(self)@, taken_view(result)),
    {
        match Header::parse(&self.buffer, &self.option) {
            Ok(Some((header, used))) => {
                if header.is_encrypted() && self.option.password().is_none() {
                    return Err(ArchiveError::MissingPassword);
                }
                self.buffer.discard(used);
                self.declared = header.file_count();
                self.stage = if header.is_encrypted() {
                    Stage::Salt
                } else {
                    Stage::Entries
                };
                Ok(true)
            },
            Ok(None) => Ok(false),
            Err(e) => Err(e),
        }
    }

    /// Reads the salt when it is whole and derives the key. Returns
    /// whether the salt was taken. Where no key can be derived, the salt
    /// is put back.
    fn read_salt(&mut self) -> (result: Result<bool, ArchiveError>)
        requires
            old(self)@.stage == Stage::Salt,
        ensures
            made_step(old(self)@, final(self)@, taken_view(result)),
    {
        if self.buffer.len() < SALT_LENGTH {
            return Ok(false);
        }
        if !self.option.is_encrypted() {
            self.buffer.discard(SALT_LENGTH);
            self.key = Vec::new();
            self.stage = Stage::Entries;
            return Ok(true);
        }
        let password = match self.option.password() {
            Some(password) => password,
            None => {
                return Err(ArchiveError::MissingPassword);
            },
        };
        let salt = self.fill_buf_with_len(SALT_LENGTH);
        match derived_or_error(
            make_key_from_password_and_salt(password.as_str(), salt.as_slice()),
        ) {
            Ok(key) => {
                self.key = key;
                self.stage = Stage::Entries;
                Ok(true)
            },
            Err(e) => {
                proof {
                    let waiting = old(self)@.buffer;
                    assert(salt@ + waiting.skip(SALT_LENGTH as int) =~= waiting);
                }
                self.buffer.pushback(salt.as_slice());
                Err(e)
            },
        }
    }

    /// Reads the record at the front of the buffer without taking it.
    pub fn read_metadata(&self) -> (result: Option<(MetaData, usize)>)
        ensures
            match parse_metadata(self@.buffer) {
                Parsed::Complete(metadata, used) => result matches Some(found) && found.0@
                    == metadata && found.1 == used,
                Parsed::Incomplete => result is None,
                Parsed::Invalid(_) => false,
            },
    {
        proof {
            assert(self@.buffer.skip(0) =~= self@.buffer);
        }
        MetaData::parse(&self.buffer, 0)
    }

    /// Finds the stored payload of the entry at the front of the buffer.
    /// The result is the record, the position of the stored payload and
    /// its length, or `None` where more bytes must arrive first.
    fn frame_entry(&self) -> (result: Option<(MetaData, usize, usize)>)
        ensures
            match parse_frame(self@.buffer, self@.option) {
                Parsed::Complete(frame, total) => result matches Some(found) && found.0@
                    == frame.metadata && found.1 == frame.start && found.2 == frame.length
                    && total == frame.start + frame.length && total <= self@.buffer.len()
                    && total <= usize::MAX,
                Parsed::Incomplete => result is None,
                Parsed::Invalid(_) => false,
            },
    {
        let (metadata, used) = match self.read_metadata() {
            Some(found) => found,
            None => {
                return None;
            },
        };
        let available: usize = self.buffer.len();
        let mut start: usize = used;
        let length: u64 = if self.option.is_compressed() {
            if available - start < 8 {
                return None;
            }
            let prefix = self.buffer.peek(start, 8);
            start = start + 8;
            binary_to_u64(prefix.as_slice())
        } else {
            metadata.size()
        };
        let stored: u128 = if self.option.is_encrypted() {
            NONCE_LENGTH as u128 + length as u128 + TAG_LENGTH as u128 * (length as u128
                / CHUNK_LENGTH as u128 + 1)
        } else {
            length as u128
        };
        if ((available - start) as u128) < stored {
            return None;
        }
        Some((metadata, start, stored as usize))
    }

    /// The stored payload of an entry of an archive without encryption:
    /// `length` bytes from position `start` of the buffer.
    fn write_raw_file(&self, start: usize, length: usize) -> (stored: Vec<u8>)
        requires
            start + length <= self@.buffer.len(),
        ensures
            stored@ == self@.buffer.subrange(start as int, start + length),
    {
        let stored = self.buffer.peek(start, length);
        stored
    }

    /// Opens the stored payload of an entry of an encrypted archive: the
    /// nonce, and behind it the sealed payload. The sealed payload is cut
    /// into chunks of `CHUNK_LENGTH` and `TAG_LENGTH` bytes, which are
    /// opened in their turn, and what is left is opened as the last chunk.
    pub fn write_decrypt_file(stored: &[u8], key: &[u8]) -> (result: Result<Vec<u8>, ArchiveError>)
        ensures
            result_view(result) == decrypted_data(key@, stored@),
    {
        if key.len() != KEY_LENGTH || stored.len() < NONCE_LENGTH {
            return Err(ArchiveError::DecryptionFailed);
        }
        let nonce = vstd::slice::slice_subrange(stored, 0, NONCE_LENGTH);
        let cipher = vstd::slice::slice_subrange(stored, NONCE_LENGTH, stored.len());
        let mut decryptor = make_decryptor(key, nonce);
        let mut plain: Vec<u8> = Vec::new();
        let mut start: usize = 0;
        let ghost whole = opened_payload(stream_start(key@, nonce@), cipher@);
        proof {
            assert(cipher@.skip(0) =~= cipher@);
        }
        while cipher.len() - start >= CHUNK_LENGTH + TAG_LENGTH
            invariant
                start <= cipher@.len(),
                decryptor@.key == key@,
                decryptor@.nonce == nonce@,
                key@.len() == KEY_LENGTH,
                stored@.len() >= NONCE_LENGTH,
                nonce@ == stored@.take(NONCE_LENGTH as int),
                cipher@ == stored@.skip(NONCE_LENGTH as int),
                whole == opened_payload(stream_start(key@, nonce@), cipher@),
                whole == match opened_payload(decryptor@, cipher@.skip(start as int)) {
                    Some(rest) => Some(plain@ + rest),
                    None => None,
                },
            decreases cipher@.len() - start,
        {
            let chunk = vstd::slice::slice_subrange(
                cipher,
                start,
                start + (CHUNK_LENGTH + TAG_LENGTH),
            );
            let ghost rest = cipher@.skip(start as int);
            proof {
                assert(rest.take((CHUNK_LENGTH + TAG_LENGTH) as int) =~= chunk@);
                assert(rest.skip((CHUNK_LENGTH + TAG_LENGTH) as int) =~= cipher@.skip(
                    start + (CHUNK_LENGTH + TAG_LENGTH),
                ));
            }
            match decryptor.decrypt_next(chunk) {
                Ok(part) => {
                    crate::binary::append_bytes(&mut plain, part.as_slice());
                },
                Err(e) => {
                    return Err(e);
                },
            }
            start = start + (CHUNK_LENGTH + TAG_LENGTH);
        }
        let last = vstd::slice::slice_subrange(cipher, start, cipher.len());
        match decryptor.decrypt_last(last) {
            Ok(part) => {
                crate::binary::append_bytes(&mut plain, part.as_slice());
                Ok(plain)
            },
            Err(e) => Err(e),
        }
    }

    /// Makes a restored file of a record and the payload of its entry:
    /// the payload is decompressed where entries are compressed, and its
    /// digest is held against the record's checksum. Content of another
    /// digest is kept beside the mismatch.
    fn restore(&self, metadata: MetaData, body: Vec<u8>, used: usize) -> (entry: Entry)
        ensures
            entry@ == judged_file(metadata@, unpacked_data(self@.option, body@), used as nat),
    {
        let data = if self.option.is_compressed() {
            match decompress(body.as_slice()) {
                Ok(data) => data,
                Err(e) => {
                    return Entry::Unreadable(e);
                },
            }
        } else {
            body
        };
        match verify_checksum(&metadata, data.as_slice()) {
            Ok(_) => Entry::Sound(RestoredFile { metadata, data }, used),
            Err(e) => Entry::Damaged(RestoredFile { metadata, data }, e),
        }
    }

    /// Reads the entry at the front of the buffer of a reader of an
    /// archive without encryption, without taking it.
    fn deserialize_raw(&self) -> (entry: Entry)
        requires
            !self@.option.encrypt,
        ensures
            entry@ == parse_entry(self@.buffer, self@.option, self@.key),
            entry@ matches EntryModel::Sound(_, used) ==> 0 < used <= self@.buffer.len(),
    {
        let (metadata, start, length) = match self.frame_entry() {
            Some(found) => found,
            None => {
                return Entry::Waiting;
            },
        };
        let stored = self.write_raw_file(start, length);
        let used: usize = start + length;
        self.restore(metadata, stored, used)
    }

    /// Reads the entry at the front of the buffer of a reader of an
    /// encrypted archive, without taking it.
    fn deserialize_with_decrypt(&self) -> (entry: Entry)
        requires
            self@.option.encrypt,
        ensures
            entry@ == parse_entry(self@.buffer, self@.option, self@.key),
            entry@ matches EntryModel::Sound(_, used) ==> 0 < used <= self@.buffer.len(),
    {
        let (metadata, start, length) = match self.frame_entry() {
            Some(found) => found,
            None => {
                return Entry::Waiting;
            },
        };
        let stored = self.write_raw_file(start, length);
        let used: usize = start + length;
        let body = match Self::write_decrypt_file(stored.as_slice(), self.key.as_slice()) {
            Ok(body) => body,
            Err(e) => {
                return Entry::Unreadable(e);
            },
        };
        self.restore(metadata, body, used)
    }

    /// Reads the entry at the front of the buffer without taking it.
    pub fn read_entry(&self) -> (entry: Entry)
        ensures
            entry@ == parse_entry(self@.buffer, self@.option, self@.key),
            entry@ matches EntryModel::Sound(_, used) ==> 0 < used <= self@.buffer.len(),
    {
        if self.option.is_encrypted() {
            self.deserialize_with_decrypt()
        } else {
            self.deserialize_raw()
        }
    }

    /// Takes the next item from the buffer, if it is whole and sound, and
    /// appends the file of an entry to `restored`. An item that is refused
    /// is not taken. Of an entry that is refused because its content has
    /// another digest than its record tells, the file is appended all the
    /// same, as it was restored.
    pub fn advance(&mut self, restored: &mut Vec<RestoredFile>) -> (result: Result<
        Progress,
        ArchiveError,
    >)
        ensures
            progress_view(result) == step_result(step(old(self)@)),
            final(self)@ == step_reader(old(self)@, step(old(self)@)),
            restored_views(final(restored)@) == restored_views(old(restored)@) + handed_out(
                step(old(self)@),
            ),
            step(old(self)@) is Taken ==> final(self)@.buffer.len() < old(self)@.buffer.len(),
    {
        proof {
            assert(restored_views(restored@) + Seq::<RestoredModel>::empty() =~= restored_views(
                restored@,
            ));
        }
        match self.stage {
            Stage::Header => match self.verify_header() {
                Ok(true) => Ok(Progress::Moved),
                Ok(false) => Ok(Progress::Waiting),
                Err(e) => Err(e),
            },
            Stage::Salt => match self.read_salt() {
                Ok(true) => Ok(Progress::Moved),
                Ok(false) => Ok(Progress::Waiting),
                Err(e) => Err(e),
            },
            Stage::Entries => match self.read_entry() {
                Entry::Waiting => Ok(Progress::Waiting),
                Entry::Sound(file, used) => {
                    if self.restored == u64::MAX {
                        return Err(
                            ArchiveError::CountMismatch {
                                declared: self.declared,
                                found: self.restored,
                            },
                        );
                    }
                    self.buffer.discard(used);
                    self.restored = self.restored + 1;
                    let ghost before = restored@;
                    restored.push(file);
                    proof {
                        assert(restored_views(restored@) =~= restored_views(before) + seq![file@]);
                    }
                    Ok(Progress::Restored)
                },
                Entry::Damaged(file, e) => {
                    let ghost before = restored@;
                    restored.push(file);
                    proof {
                        assert(restored_views(restored@) =~= restored_views(before) + seq![file@]);
                    }
                    Err(e)
                },
                Entry::Unreadable(e) => Err(e),
            },
        }
    }

    /// Restores what has become complete: takes item after item from the
    /// buffer and appends the files to `restored`, until the next item
    /// is not whole, or is refused. Files that were restored before an
    /// item is refused stay in `restored`; and where an entry is refused
    /// because its content has another digest than its record tells, its
    /// file is the last in `restored`, as it was restored, so that the
    /// caller can leave it in place.
    pub fn deserialize(&mut self, restored: &mut Vec<RestoredFile>) -> (result: Result<
        (),
        ArchiveError,
    >)
        ensures
            final(self)@ == drain(old(self)@).reader,
            restored_views(final(restored)@) == restored_views(old(restored)@) + drain(
                old(self)@,
            ).files,
            match drain(old(self)@).failure {
                Some(failure) => result matches Err(e) && e@ == failure,
                None => result is Ok,
            },
            result is Err && result->Err_0@ is ChecksumMismatch ==> final(restored)@.len() > old(
                restored,
            )@.len() && mismatch_of(result->Err_0@, final(restored)@.last()@),
    {
        let ghost mut taken: Seq<RestoredModel> = Seq::empty();
        proof {
            if drain(self@).failure matches Some(failure) && failure is ChecksumMismatch {
                lemma_refused_content_is_handed_out(self@);
            }
        }
        proof {
            assert(restored_views(restored@) + taken =~= restored_views(restored@));
        }
        loop
            invariant
                drain(old(self)@).reader == drain(self@).reader,
                drain(old(self)@).failure == drain(self@).failure,
                drain(old(self)@).files == taken + drain(self@).files,
                restored_views(restored@) == restored_views(old(restored)@) + taken,
                refused_content_is_last(drain(old(self)@)),
            decreases self@.buffer.len(),
        {
            let ghost before = self@;
            let result = self.advance(restored);
            proof {
                reveal(drain);
                let made = handed_out(step(before));
                assert(restored_views(restored@) =~= restored_views(old(restored)@) + (taken
                    + made));
                if step(before) is Taken {
                    assert(taken + drain(before).files =~= (taken + made) + drain(self@).files);
                    taken = taken + made;
                } else {
                    assert(drain(before).files =~= made);
                }
            }
            match result {
                Ok(Progress::Waiting) => {
                    return Ok(());
                },
                Ok(_) => {},
                Err(e) => {
                    proof {
                        let files = restored_views(restored@);
                        if e@ is ChecksumMismatch {
                            assert(files.last() == drain(old(self)@).files.last());
                            assert(files.last() == restored@.last()@);
                        }
                    }
                    return Err(e);
                },
            }
        }
    }

    /// Tells the reader that the stream has ended. What has become
    /// complete is restored first; then the stream must have ended
    /// behind the last of as many entries as the header announces.
    pub fn finish(&mut self, restored: &mut Vec<RestoredFile>) -> (result: Result<
        (),
        ArchiveError,
    >)
        ensures
            final(self)@ == drain(old(self)@).reader,
            restored_views(final(restored)@) == restored_views(old(restored)@) + drain(
                old(self)@,
            ).files,
            unit_view(result) == match drain(old(self)@).failure {
                Some(failure) => Err(failure),
                None => end_of_stream(drain(old(self)@).reader),
            },
            result is Err && result->Err_0@ is ChecksumMismatch ==> final(restored)@.len() > old(
                restored,
            )@.len() && mismatch_of(result->Err_0@, final(restored)@.last()@),
    {
        match self.deserialize(restored) {
            Ok(_) => {},
            Err(e) => {
                return Err(e);
            },
        }
        match self.stage {
            Stage::Header => if self.buffer.len() < LABEL_LENGTH {
                Err(ArchiveError::WrongLabel)
            } else {
                Err(ArchiveError::UnexpectedEof)
            },
            Stage::Salt => Err(ArchiveError::UnexpectedEof),
            Stage::Entries => if self.buffer.len() > 0 {
                Err(ArchiveError::UnexpectedEof)
            } else if self.restored != self.declared {
                Err(ArchiveError::CountMismatch { declared: self.declared, found: self.restored })
            } else {
                Ok(())
            },
        }
    }
}

} // verus!
