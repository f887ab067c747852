//! What holds of a writer and a reader together.
//!
//! A reader does not depend on how the source cuts the stream: fed in
//! pieces, it restores what it restores when fed the stream at once. And a
//! reader restores from an archive the files that the writer was given,
//! their paths and their contents byte for byte, and finds the number of
//! entries that the header announces.
//!
//! The round trip holds as far as the outside transforms undo what they
//! do: that zlib inflates what it has deflated and that the cipher opens
//! what it has sealed is theirs to keep. It is asked of them only where
//! the archive is compressed or encrypted; of a plain archive nothing is
//! asked.
//!
//! Two things hold of every stream, whatever its entries hold. The count
//! decides: of two streams that differ only in the number that the header
//! announces, at most one is accepted. And what was restored of an entry
//! whose checksum differs is handed out last, behind the files of the
//! entries before it.

use crate::binary::{content_digest, lemma_decoded_of_fixed};
use crate::compress::{zlib_deflated, zlib_inflated, COMPRESSION_LEVEL};
use crate::encrypt::{
    cipher_round_trips, lemma_payload_round_trip, lemma_sealed_payload_length, sealed_payload,
    stream_start, NONCE_LENGTH, SALT_LENGTH,
};
use crate::error::Failure;
use crate::serialize::deserializer::{
    drain, end_of_stream, fed, mismatch_of, new_reader, parse_entry, parse_frame,
    restored_data, step, step_files, stored_length, Drained, EntryModel, Frame, ReaderModel,
    RestoredModel, Stage, Step,
};
use crate::serialize::header::{
    header_bytes, header_length, lemma_header_round_trip, lemma_parse_header_stable,
    parse_header, HeaderModel, Parsed,
};
use crate::serialize::meta::{
    checksum_field, lemma_metadata_round_trip, lemma_parse_metadata_stable, metadata_bytes,
    metadata_length, parse_metadata, MAX_PATH_LENGTH,
};
use crate::serialize::option::{plain_options, OptionModel};
use crate::serialize::serializer::{
    archive_bytes, archive_key, archive_start, empty_nonces, encrypted_data, entries_bytes,
    entry_bytes, file_metadata, length_prefix, payload_body, written_header, FileModel,
};
use crate::serialize::version::{compatibility, current_version, Compatibility};
use vstd::prelude::*;
use vstd::utf8::encode_utf8;

verus! {

/// The place of a stored payload is read from the bytes that have
/// arrived: once it is known, bytes that arrive later change nothing.
pub proof fn lemma_parse_frame_stable(bytes: Seq<u8>, more: Seq<u8>, option: OptionModel)
    requires
        parse_frame(bytes, option) is Complete,
    ensures
        parse_frame(bytes + more, option) == parse_frame(bytes, option),
{
    let all = bytes + more;
    lemma_parse_metadata_stable(bytes, more);
    let used = parse_metadata(bytes)->Complete_1;
    if option.compress {
        assert(all.subrange(used as int, (used + 8) as int) =~= bytes.subrange(
            used as int,
            (used + 8) as int,
        ));
    }
}

/// An entry is judged by the bytes that have arrived: once it is restored
/// or refused, bytes that arrive later change nothing, neither of the
/// judgement nor of the file that is handed out.
pub proof fn lemma_parse_entry_stable(
    bytes: Seq<u8>,
    more: Seq<u8>,
    option: OptionModel,
    key: Seq<u8>,
)
    requires
        !(parse_entry(bytes, option, key) is Waiting),
    ensures
        parse_entry(bytes + more, option, key) == parse_entry(bytes, option, key),
{
    let all = bytes + more;
    lemma_parse_frame_stable(bytes, more, option);
    let frame = parse_frame(bytes, option)->Complete_0;
    let total = parse_frame(bytes, option)->Complete_1;
    assert(all.subrange(frame.start as int, total as int) =~= bytes.subrange(
        frame.start as int,
        total as int,
    ));
}

/// An item that is taken is taken from the front of the buffer, and it is
/// not empty.
pub proof fn lemma_step_consumes(reader: ReaderModel)
    ensures
        step(reader) matches Step::Taken(next, file) ==> next.buffer.len()
            < reader.buffer.len() && next.option == reader.option,
{
}

/// A step is decided by the bytes that have arrived: once an item is
/// taken or refused, bytes that arrive later wait behind it and change
/// nothing.
pub proof fn lemma_step_stable(reader: ReaderModel, more: Seq<u8>)
    requires
        !(step(reader) is Waiting),
    ensures
        step(fed(reader, more)) == match step(reader) {
            Step::Taken(next, file) => Step::Taken(fed(next, more), file),
            other => other,
        },
{
    let all = reader.buffer + more;
    match reader.stage {
        Stage::Header => {
            lemma_parse_header_stable(reader.buffer, more, reader.option);
            if parse_header(reader.buffer, reader.option) is Complete {
                let used = parse_header(reader.buffer, reader.option)->Complete_1;
                assert(all.skip(used as int) =~= reader.buffer.skip(used as int) + more);
            }
        },
        Stage::Salt => {
            assert(all.take(SALT_LENGTH as int) =~= reader.buffer.take(SALT_LENGTH as int));
            assert(all.skip(SALT_LENGTH as int) =~= reader.buffer.skip(SALT_LENGTH as int)
                + more);
        },
        Stage::Entries => {
            lemma_parse_entry_stable(reader.buffer, more, reader.option, reader.key);
            if parse_entry(reader.buffer, reader.option, reader.key) is Sound {
                let used = parse_entry(reader.buffer, reader.option, reader.key)->Sound_1;
                assert(all.skip(used as int) =~= reader.buffer.skip(used as int) + more);
            }
        },
    }
}

/// What a reader has done after more bytes have arrived, told from what
/// it had done before: a reader that was refused an item is refused it
/// again, and the new bytes wait; a reader that was waiting goes on from
/// where it was.
pub open spec fn drained_further(before: Drained, more: Seq<u8>) -> Drained {
    match before.failure {
        Some(failure) => Drained { reader: fed(before.reader, more), ..before },
        None => {
            let after = drain(fed(before.reader, more));
            Drained { files: before.files + after.files, ..after }
        },
    }
}

/// A reader does not depend on where the source cuts the stream. Fed
/// `more` after it has taken what it could, it has restored the same
/// files, stands in the same state and has met the same failure as when
/// `more` had arrived together with what was there before.
pub proof fn lemma_drain_in_pieces(reader: ReaderModel, more: Seq<u8>)
    ensures
        drain(fed(reader, more)) == drained_further(drain(reader), more),
    decreases reader.buffer.len(),
{
    reveal(drain);
    match step(reader) {
        Step::Taken(next, file) => {
            lemma_step_consumes(reader);
            lemma_step_stable(reader, more);
            lemma_drain_in_pieces(next, more);
            let rest = drain(next);
            let further = drained_further(rest, more);
            assert(drained_further(drain(reader), more).files =~= step_files(file)
                + further.files);
        },
        Step::Waiting => {},
        Step::Refused(failure, file) => {
            lemma_step_stable(reader, more);
        },
    }
}

/// A stream that is fed in two chunks is read as the stream that is fed
/// at once.
pub proof fn lemma_chunks_do_not_matter(reader: ReaderModel, first: Seq<u8>, second: Seq<u8>)
    ensures
        drain(fed(reader, first + second)) == drained_further(
            drain(fed(reader, first)),
            second,
        ),
{
    lemma_drain_in_pieces(fed(reader, first), second);
    assert((reader.buffer + first) + second =~= reader.buffer + (first + second));
}

/// Whether zlib inflates what it has deflated of `data`, and the deflated
/// bytes are not more than a length field counts.
pub open spec fn zlib_round_trips(data: Seq<u8>) -> bool {
    zlib_deflated(data, COMPRESSION_LEVEL) matches Some(packed) ==> zlib_inflated(packed) == Some(
        data,
    ) && packed.len() <= u64::MAX
}

/// Whether a file comes back from an archive as it went in: its path and
/// its length fit their fields, and where the archive is compressed or
/// encrypted, the outside transforms undo on it what they do.
#[verifier::opaque]
pub open spec fn comes_back(option: OptionModel, key: Seq<u8>, nonce: Seq<u8>, file: FileModel)
    -> bool {
    &&& encode_utf8(file.path).len() <= MAX_PATH_LENGTH
    &&& file.data.len() <= u64::MAX
    &&& option.compress ==> zlib_round_trips(file.data)
    &&& option.encrypt ==> cipher_round_trips(key, nonce)
}

/// The file that a reader restores from the entry of `file`.
pub open spec fn restored_of(file: FileModel) -> RestoredModel {
    RestoredModel { metadata: file_metadata(file), data: file.data }
}

/// An entry that was written is read back as the file that it was written
/// for, whatever follows it in the stream.
#[verifier::rlimit(30)]
pub proof fn lemma_entry_round_trip(
    option: OptionModel,
    key: Seq<u8>,
    nonce: Seq<u8>,
    file: FileModel,
    rest: Seq<u8>,
)
    requires
        entry_bytes(option, key, nonce, file) is Ok,
        comes_back(option, key, nonce, file),
    ensures
        parse_entry(entry_bytes(option, key, nonce, file)->Ok_0 + rest, option, key)
            == EntryModel::Sound(
            restored_of(file),
            entry_bytes(option, key, nonce, file)->Ok_0.len(),
        ),
        entry_bytes(option, key, nonce, file)->Ok_0.len() > 0,
{
    reveal(comes_back);
    let entry = entry_bytes(option, key, nonce, file)->Ok_0;
    let all = entry + rest;
    let metadata = file_metadata(file);
    let record = metadata_bytes(metadata);
    let body = payload_body(option, file.data)->Ok_0;
    let prefix = length_prefix(option, body);
    let stored: Seq<u8> = if option.encrypt {
        encrypted_data(key, nonce, body)->Ok_0
    } else {
        body
    };
    assert(entry =~= record + prefix + stored);
    assert(all =~= record + (prefix + stored + rest));
    lemma_metadata_round_trip(metadata, prefix + stored + rest);
    let used = metadata_length(metadata);
    assert(record.len() == used);
    if option.compress {
        lemma_decoded_of_fixed(body.len() as u64);
        assert(all.subrange(used as int, (used + 8) as int) =~= prefix);
    }
    if option.encrypt {
        lemma_sealed_payload_length(stream_start(key, nonce), body);
        lemma_payload_round_trip(stream_start(key, nonce), body);
        assert(stored.take(NONCE_LENGTH as int) =~= nonce);
        assert(stored.skip(NONCE_LENGTH as int) =~= sealed_payload(
            stream_start(key, nonce),
            body,
        )->0);
    }
    let start = used + prefix.len();
    let total = start + stored.len();
    assert(stored.len() == stored_length(option, body.len()));
    assert(all.subrange(start as int, total as int) =~= stored);
    assert(parse_frame(all, option) == Parsed::Complete(
        Frame { metadata, start, length: stored.len() },
        total,
    ));
    assert(restored_data(option, key, stored) == Ok::<Seq<u8>, Failure>(file.data));
    assert(checksum_field(metadata.checksum) == content_digest(file.data));
}

/// Whether file `i` of `files` comes back under nonce `i`.
pub open spec fn comes_back_at(
    option: OptionModel,
    key: Seq<u8>,
    nonces: Seq<Seq<u8>>,
    files: Seq<FileModel>,
    i: int,
) -> bool {
    comes_back(option, key, nonces[i], files[i])
}

/// Whether every file of `files` comes back under its nonce.
pub open spec fn all_come_back(
    option: OptionModel,
    key: Seq<u8>,
    nonces: Seq<Seq<u8>>,
    files: Seq<FileModel>,
) -> bool {
    &&& nonces.len() == files.len()
    &&& forall|i: int|
        0 <= i < files.len() ==> #[trigger] comes_back_at(option, key, nonces, files, i)
}

/// A reader that stands before the entry of `file` takes it and hands
/// out the file, whatever follows the entry in the stream.
pub proof fn lemma_entry_is_taken(
    reader: ReaderModel,
    nonce: Seq<u8>,
    file: FileModel,
    after: Seq<u8>,
)
    requires
        reader.stage == Stage::Entries,
        reader.restored < u64::MAX,
        entry_bytes(reader.option, reader.key, nonce, file) is Ok,
        reader.buffer == entry_bytes(reader.option, reader.key, nonce, file)->Ok_0 + after,
        comes_back(reader.option, reader.key, nonce, file),
    ensures
        step(reader) == Step::Taken(
            ReaderModel { buffer: after, restored: (reader.restored + 1) as u64, ..reader },
            Some(restored_of(file)),
        ),
        after.len() < reader.buffer.len(),
{
    let entry = entry_bytes(reader.option, reader.key, nonce, file)->Ok_0;
    lemma_entry_round_trip(reader.option, reader.key, nonce, file, after);
    assert(reader.buffer.skip(entry.len() as int) =~= after);
}

/// A reader that takes an item has done what it does behind the item,
/// and before that has handed out the file of the item.
pub proof fn lemma_drain_behind_an_item(
    reader: ReaderModel,
    next: ReaderModel,
    file: Option<RestoredModel>,
)
    requires
        step(reader) == Step::Taken(next, file),
        next.buffer.len() < reader.buffer.len(),
    ensures
        drain(reader) == (Drained { files: step_files(file) + drain(next).files, ..drain(next) }),
{
    reveal(drain);
}

/// A reader to which nothing has arrived waits.
pub proof fn lemma_nothing_to_take(reader: ReaderModel)
    requires
        reader.stage == Stage::Entries,
        reader.buffer.len() == 0,
    ensures
        drain(reader) == (Drained {
            reader,
            files: Seq::<RestoredModel>::empty(),
            failure: None,
        }),
{
    reveal(drain);
    assert(parse_metadata(reader.buffer) is Incomplete);
    assert(step(reader) is Waiting);
}

/// The files that a reader restores from the entries of `files`.
pub open spec fn restored_files(files: Seq<FileModel>) -> Seq<RestoredModel> {
    files.map_values(|file: FileModel| restored_of(file))
}

/// A reader that stands before the entries of `files`, and nothing else,
/// restores the files in their order and takes every byte.
#[verifier::rlimit(30)]
pub proof fn lemma_entries_round_trip(
    reader: ReaderModel,
    nonces: Seq<Seq<u8>>,
    files: Seq<FileModel>,
)
    requires
        reader.stage == Stage::Entries,
        entries_bytes(reader.option, reader.key, nonces, files) == Ok::<Seq<u8>, Failure>(
            reader.buffer,
        ),
        all_come_back(reader.option, reader.key, nonces, files),
        reader.restored + files.len() <= u64::MAX,
    ensures
        drain(reader) == (Drained {
            reader: ReaderModel {
                buffer: Seq::<u8>::empty(),
                restored: (reader.restored + files.len()) as u64,
                ..reader
            },
            files: restored_files(files),
            failure: None,
        }),
    decreases files.len(),
{
    if files.len() == 0 {
        assert(reader.buffer =~= Seq::<u8>::empty());
        lemma_nothing_to_take(reader);
        assert(restored_files(files) =~= Seq::<RestoredModel>::empty());
        assert(reader == ReaderModel {
            buffer: Seq::<u8>::empty(),
            restored: (reader.restored + files.len()) as u64,
            ..reader
        });
    } else {
        let later_nonces = nonces.drop_first();
        let later_files = files.drop_first();
        let after = entries_bytes(reader.option, reader.key, later_nonces, later_files)->Ok_0;
        let next = ReaderModel {
            buffer: after,
            restored: (reader.restored + 1) as u64,
            ..reader
        };
        let first = Some(restored_of(files.first()));
        assert(step(reader) == Step::Taken(next, first) && after.len() < reader.buffer.len())
            by {
            assert(comes_back_at(reader.option, reader.key, nonces, files, 0));
            lemma_entry_is_taken(reader, nonces.first(), files.first(), after);
        }
        assert(all_come_back(next.option, next.key, later_nonces, later_files)) by {
            assert forall|i: int| 0 <= i < later_files.len() implies #[trigger] comes_back_at(
                reader.option,
                reader.key,
                later_nonces,
                later_files,
                i,
            ) by {
                assert(comes_back_at(reader.option, reader.key, nonces, files, i + 1));
                assert(later_nonces[i] == nonces[i + 1]);
                assert(later_files[i] == files[i + 1]);
            }
        }
        lemma_entries_round_trip(next, later_nonces, later_files);
        lemma_drain_behind_an_item(reader, next, first);
        assert(restored_files(files) =~= step_files(first) + restored_files(later_files));
    }
}

/// What a reader has done with a whole archive of `files` whose header
/// announces `declared` entries.
pub open spec fn archive_read(
    option: OptionModel,
    key: Seq<u8>,
    declared: u64,
    files: Seq<FileModel>,
) -> Drained {
    Drained {
        reader: ReaderModel {
            option,
            stage: Stage::Entries,
            buffer: Seq::<u8>::empty(),
            key,
            declared,
            restored: files.len() as u64,
        },
        files: restored_files(files),
        failure: None,
    }
}

/// The round trip. A reader with the options of the writer restores from
/// an archive the files that the writer was given, in their order, with
/// their paths and with their contents byte for byte, and takes every
/// byte of the stream. At the end of the stream it accepts the archive
/// if the header announces the number of its entries; an archive whose
/// header announces another number is refused for that, after all its
/// entries are restored.
pub proof fn lemma_archive_round_trip(
    option: OptionModel,
    declared: u64,
    salt: Seq<u8>,
    nonces: Seq<Seq<u8>>,
    files: Seq<FileModel>,
)
    requires
        salt.len() == SALT_LENGTH,
        files.len() <= u64::MAX,
        archive_key(option, salt) is Ok,
        entries_bytes(option, archive_key(option, salt)->Ok_0, nonces, files) is Ok,
        all_come_back(option, archive_key(option, salt)->Ok_0, nonces, files),
    ensures
        ({
            let key = archive_key(option, salt)->Ok_0;
            let archive = archive_start(option, declared, salt) + entries_bytes(
                option,
                key,
                nonces,
                files,
            )->Ok_0;
            let read = drain(fed(new_reader(option), archive));
            &&& read == archive_read(option, key, declared, files)
            &&& declared == files.len() ==> end_of_stream(read.reader) == Ok::<(), Failure>(())
            &&& declared != files.len() ==> end_of_stream(read.reader) == Err::<(), Failure>(
                Failure::CountMismatch { declared, found: files.len() as u64 },
            )
        }),
{
    let key = archive_key(option, salt)->Ok_0;
    let entries = entries_bytes(option, key, nonces, files)->Ok_0;
    let archive = archive_start(option, declared, salt) + entries;
    let header = written_header(option, declared);
    if option.encrypt {
        assert(archive =~= header_bytes(header) + (salt + entries));
        lemma_header_is_taken(option, header, salt + entries);
        let at_salt = behind_header(option, header, salt + entries);
        lemma_salt_is_taken(at_salt, salt, entries);
        let at_entries = ReaderModel { stage: Stage::Entries, buffer: entries, key, ..at_salt };
        lemma_entries_round_trip(at_entries, nonces, files);
    } else {
        assert(archive =~= header_bytes(header) + entries);
        lemma_header_is_taken(option, header, entries);
        lemma_entries_round_trip(behind_header(option, header, entries), nonces, files);
    }
}

/// The round trip of a plain archive, of which nothing is asked but that
/// the paths and the lengths of the files fit their fields: the reader
/// restores the files that the writer was given, and accepts the archive.
pub proof fn lemma_plain_archive_round_trip(files: Seq<FileModel>, salt: Seq<u8>)
    requires
        salt.len() == SALT_LENGTH,
        files.len() <= u64::MAX,
        forall|i: int|
            0 <= i < files.len() ==> encode_utf8((#[trigger] files[i]).path).len()
                <= MAX_PATH_LENGTH && files[i].data.len() <= u64::MAX,
    ensures
        ({
            let nonces = empty_nonces(files.len());
            let archive = archive_bytes(plain_options(), salt, nonces, files);
            &&& archive is Ok
            &&& drain(fed(new_reader(plain_options()), archive->Ok_0)) == archive_read(
                plain_options(),
                Seq::<u8>::empty(),
                files.len() as u64,
                files,
            )
            &&& end_of_stream(drain(fed(new_reader(plain_options()), archive->Ok_0)).reader)
                == Ok::<(), Failure>(())
        }),
{
    reveal(comes_back);
    let option = plain_options();
    let key = Seq::<u8>::empty();
    let nonces = empty_nonces(files.len());
    lemma_plain_entries_are_written(nonces, files);
    assert forall|i: int| 0 <= i < files.len() implies #[trigger] comes_back_at(
        option,
        key,
        nonces,
        files,
        i,
    ) by {}
    lemma_archive_round_trip(option, files.len() as u64, salt, nonces, files);
}

/// The entries of a plain archive are always written.
pub proof fn lemma_plain_entries_are_written(nonces: Seq<Seq<u8>>, files: Seq<FileModel>)
    requires
        nonces.len() == files.len(),
    ensures
        entries_bytes(plain_options(), Seq::<u8>::empty(), nonces, files) is Ok,
    decreases files.len(),
{
    if files.len() > 0 {
        lemma_plain_entries_are_written(nonces.drop_first(), files.drop_first());
    }
}

/// What was restored of an entry whose checksum differs is left to the
/// caller. A reader that stops at a checksum mismatch has handed out the
/// files of the entries before it, and last the file of the refused entry
/// itself, with the path of its record and the content as it was restored;
/// the failure tells that path and both digests. The reader stands before
/// the refused entry and has made no file of a later one.
pub proof fn lemma_refused_content_is_handed_out(reader: ReaderModel)
    requires
        drain(reader).failure matches Some(failure) && failure is ChecksumMismatch,
    ensures
        ({
            let read = drain(reader);
            &&& read.files.len() > 0
            &&& mismatch_of(read.failure->0, read.files.last())
            &&& parse_entry(read.reader.buffer, read.reader.option, read.reader.key)
                == EntryModel::Damaged(read.files.last(), read.failure->0)
            &&& read.reader.stage == Stage::Entries
        }),
    decreases reader.buffer.len(),
{
    reveal(drain);
    match step(reader) {
        Step::Taken(next, file) => {
            if next.buffer.len() < reader.buffer.len() {
                lemma_refused_content_is_handed_out(next);
                let rest = drain(next);
                assert((step_files(file) + rest.files).last() == rest.files.last());
            }
        },
        Step::Waiting => {},
        Step::Refused(failure, file) => {},
    }
}

/// The reader `reader` with another number of entries announced.
pub open spec fn announcing(reader: ReaderModel, declared: u64) -> ReaderModel {
    ReaderModel { declared, ..reader }
}

/// The failure `failure` of a reader to which another number of entries
/// was announced: only a count mismatch tells the number.
pub open spec fn failure_announcing(failure: Option<Failure>, declared: u64) -> Option<Failure> {
    match failure {
        Some(Failure::CountMismatch { declared: _, found }) => Some(
            Failure::CountMismatch { declared, found },
        ),
        other => other,
    }
}

/// Behind the header a reader restores what the stream holds, whatever
/// number of entries was announced: the number is not looked at before
/// the stream ends.
pub proof fn lemma_count_is_not_looked_at(reader: ReaderModel, declared: u64)
    requires
        reader.stage != Stage::Header,
    ensures
        drain(announcing(reader, declared)) == (Drained {
            reader: announcing(drain(reader).reader, declared),
            files: drain(reader).files,
            failure: failure_announcing(drain(reader).failure, declared),
        }),
    decreases reader.buffer.len(),
{
    reveal(drain);
    match step(reader) {
        Step::Taken(next, file) => {
            if next.buffer.len() < reader.buffer.len() {
                lemma_count_is_not_looked_at(next, declared);
            }
        },
        Step::Waiting => {},
        Step::Refused(failure, file) => {},
    }
}

/// The reader that has taken the header `header` and stands before `rest`.
pub open spec fn behind_header(option: OptionModel, header: HeaderModel, rest: Seq<u8>)
    -> ReaderModel {
    ReaderModel {
        option,
        stage: if header.is_encrypted {
            Stage::Salt
        } else {
            Stage::Entries
        },
        buffer: rest,
        key: Seq::<u8>::empty(),
        declared: header.file_count,
        restored: 0,
    }
}

/// A reader to which a stream arrives that starts with a header of a
/// version that it reads and of its own options takes the header, and
/// goes on with what stands behind it. Only a reader that is to decrypt
/// without a password refuses it.
pub proof fn lemma_header_is_taken(option: OptionModel, header: HeaderModel, rest: Seq<u8>)
    requires
        compatibility(header.version, current_version()) == Compatibility::Compatible,
        option.encrypt == header.is_encrypted,
        option.compress == header.is_compressed,
    ensures
        ({
            let start = fed(new_reader(option), header_bytes(header) + rest);
            let next = behind_header(option, header, rest);
            if header.is_encrypted && option.password is None {
                drain(start) == (Drained {
                    reader: start,
                    files: Seq::<RestoredModel>::empty(),
                    failure: Some(Failure::MissingPassword),
                })
            } else {
                drain(start) == drain(next)
            }
        }),
{
    reveal(drain);
    let start = fed(new_reader(option), header_bytes(header) + rest);
    let next = behind_header(option, header, rest);
    lemma_header_round_trip(header, rest, option);
    assert(start.buffer =~= header_bytes(header) + rest);
    assert(start.buffer.skip(header_length(header) as int) =~= rest);
    if header.is_encrypted && option.password is None {
        assert(step(start) == Step::Refused(Failure::MissingPassword, None));
    } else {
        assert(step(start) == Step::Taken(next, None));
        assert(next.buffer.len() < start.buffer.len());
        assert(step_files(None) + drain(next).files =~= drain(next).files);
    }
}

/// A reader that stands before the salt takes it and derives the key, and
/// goes on with what stands behind it.
pub proof fn lemma_salt_is_taken(reader: ReaderModel, salt: Seq<u8>, rest: Seq<u8>)
    requires
        reader.stage == Stage::Salt,
        salt.len() == SALT_LENGTH,
        reader.buffer == salt + rest,
        archive_key(reader.option, salt) is Ok,
    ensures
        drain(reader) == drain(
            ReaderModel {
                stage: Stage::Entries,
                buffer: rest,
                key: archive_key(reader.option, salt)->Ok_0,
                ..reader
            },
        ),
{
    reveal(drain);
    let next = ReaderModel {
        stage: Stage::Entries,
        buffer: rest,
        key: archive_key(reader.option, salt)->Ok_0,
        ..reader
    };
    assert(reader.buffer.take(SALT_LENGTH as int) =~= salt);
    assert(reader.buffer.skip(SALT_LENGTH as int) =~= rest);
    assert(step(reader) == Step::Taken(next, None));
    assert(step_files(None) + drain(next).files =~= drain(next).files);
}

/// The count decides. Of two streams that differ in nothing but the
/// number of entries that their headers announce, a reader restores the
/// same files; and where it accepts the one at the end of the stream, it
/// refuses the other for its count, telling the number that was announced
/// and the number that was found. An archive whose count was altered is
/// never accepted. Nothing is asked of what the entries hold.
pub proof fn lemma_count_decides(
    option: OptionModel,
    header: HeaderModel,
    declared: u64,
    rest: Seq<u8>,
)
    requires
        compatibility(header.version, current_version()) == Compatibility::Compatible,
        option.encrypt == header.is_encrypted,
        option.compress == header.is_compressed,
    ensures
        ({
            let other = HeaderModel { file_count: declared, ..header };
            let first = drain(fed(new_reader(option), header_bytes(header) + rest));
            let second = drain(fed(new_reader(option), header_bytes(other) + rest));
            &&& second.files == first.files
            &&& second.failure == failure_announcing(first.failure, declared)
            &&& first.failure is None && end_of_stream(first.reader) is Ok && declared
                != header.file_count ==> end_of_stream(second.reader) == Err::<(), Failure>(
                Failure::CountMismatch { declared, found: header.file_count },
            )
        }),
{
    let other = HeaderModel { file_count: declared, ..header };
    lemma_header_is_taken(option, header, rest);
    lemma_header_is_taken(option, other, rest);
    if !(header.is_encrypted && option.password is None) {
        let next = behind_header(option, header, rest);
        assert(behind_header(option, other, rest) == announcing(next, declared));
        assert(announcing(next, header.file_count) == next);
        lemma_count_is_not_looked_at(next, declared);
        lemma_count_is_not_looked_at(next, header.file_count);
    }
}

/// The number of entries is held to the header. A reader accepts the end
/// of a stream only behind the header, with no byte left over, and with
/// as many entries restored as the header announces.
pub proof fn lemma_count_is_held(reader: ReaderModel)
    requires
        end_of_stream(reader) is Ok,
    ensures
        reader.stage == Stage::Entries,
        reader.buffer.len() == 0,
        reader.restored == reader.declared,
{
}

} // verus!
