use lusl::binary::get_checksum;
use lusl::meta::{FileType, MetaData};
use lusl::serialize::deserializer::{Entry, Progress, RestoredFile, Stage};
use lusl::{ArchiveError, Deserializer, SerializeOption, Serializer, SourceFile};

fn content(length: usize, seed: usize) -> Vec<u8> {
    (0..length).map(|i| ((i * 7 + seed * 13) % 256) as u8).collect()
}

/// Three files in two subdirectories.
fn small_tree() -> Vec<SourceFile> {
    vec![
        SourceFile::new("root/readme.txt", b"hello world!".to_vec()),
        SourceFile::new("root/sub1/data.bin", content(20_000, 1)),
        SourceFile::new("root/sub2/폭발.jpg", content(8192, 2)),
    ]
}

fn tree_with_edge_sizes() -> Vec<SourceFile> {
    vec![
        SourceFile::new("t/empty", Vec::new()),
        SourceFile::new("t/one", vec![42]),
        SourceFile::new("t/almost", content(8191, 3)),
        SourceFile::new("t/exact", content(8192, 4)),
        SourceFile::new("t/over", content(8193, 5)),
        SourceFile::new("t/deep/er/and/deeper/three_chunks", content(3 * 8192, 6)),
        SourceFile::new("t/zeros", vec![0u8; 50_000]),
    ]
}

fn write(files: &Vec<SourceFile>, option: &SerializeOption) -> Vec<u8> {
    let mut serializer = Serializer::new();
    serializer.set_option(option.clone());
    serializer.serialize(files).unwrap()
}

/// Feeds `archive` to a reader in chunks of `chunk` bytes and ends the
/// stream.
fn read(
    archive: &[u8],
    option: &SerializeOption,
    chunk: usize,
) -> (Vec<RestoredFile>, Result<(), ArchiveError>) {
    let mut deserializer = Deserializer::new();
    deserializer.set_option(option.clone());
    let mut restored = Vec::new();
    for piece in archive.chunks(chunk) {
        deserializer.fill_buf(piece);
        if let Err(e) = deserializer.deserialize(&mut restored) {
            return (restored, Err(e));
        }
    }
    let end = deserializer.finish(&mut restored);
    (restored, end)
}

fn assert_restored(files: &Vec<SourceFile>, restored: &Vec<RestoredFile>) {
    assert_eq!(files.len(), restored.len());
    for (file, back) in files.iter().zip(restored.iter()) {
        assert_eq!(file.path(), back.path());
        assert_eq!(file.data(), back.data());
        assert_eq!(back.metadata().size(), file.data().len() as u64);
        assert_eq!(back.metadata().file_type(), Some(FileType::Regular));
        assert_eq!(back.metadata().checksum(), &Some(get_checksum(file.data())));
        assert_eq!(get_checksum(back.data()), get_checksum(file.data()));
    }
}

fn round_trip(option: SerializeOption) {
    for files in [small_tree(), tree_with_edge_sizes(), Vec::new()] {
        let archive = write(&files, &option);
        for chunk in [archive.len().max(1), 8192, 8208, 4096, 1000, 17] {
            let (restored, end) = read(&archive, &option, chunk);
            assert_eq!(end, Ok(()));
            assert_restored(&files, &restored);
        }
    }
}

#[test]
fn a_plain_archive_round_trips() {
    round_trip(SerializeOption::new());
}

#[test]
fn a_compressed_archive_round_trips() {
    round_trip(SerializeOption::new().to_compress(true));
}

#[test]
fn an_encrypted_archive_round_trips() {
    round_trip(SerializeOption::new().to_encrypt("test_password"));
}

#[test]
fn an_encrypted_and_compressed_archive_round_trips() {
    round_trip(SerializeOption::new().to_encrypt("test_password").to_compress(true));
}

#[test]
fn a_stream_that_comes_byte_by_byte_is_read_as_one_that_comes_at_once() {
    let files = small_tree();
    for option in [
        SerializeOption::new(),
        SerializeOption::new().to_compress(true),
        SerializeOption::new().to_encrypt("pw"),
    ] {
        let files = if option.is_encrypted() {
            vec![SourceFile::new("a", b"hello".to_vec()), SourceFile::new("b", Vec::new())]
        } else {
            files.clone()
        };
        let archive = write(&files, &option);
        let (at_once, end_at_once) = read(&archive, &option, archive.len());
        let (in_pieces, end_in_pieces) = read(&archive, &option, 1);
        assert_eq!(end_at_once, Ok(()));
        assert_eq!(end_in_pieces, Ok(()));
        assert_eq!(at_once, in_pieces);
        assert_restored(&files, &in_pieces);
    }
}

#[test]
fn three_files_in_two_subdirectories_come_back() {
    let files = small_tree();
    let option = SerializeOption::new();
    let archive = write(&files, &option);

    assert_eq!(archive[0], b"LUSL Serialized File"[0]);
    assert_eq!(&archive[..20], b"LUSL Serialized File");
    assert_eq!(&archive[20..24], &[1, 1, 2, 0]);
    assert_eq!(archive[24], 0x00);
    assert_eq!(&archive[25..27], &[1, 3]);

    let (restored, end) = read(&archive, &option, 8192);
    assert_eq!(end, Ok(()));
    assert_eq!(restored.len(), 3);
    for (file, back) in files.iter().zip(restored.iter()) {
        assert_eq!(get_checksum(back.data()), get_checksum(file.data()));
        assert_eq!(back.path(), file.path());
    }
    assert_eq!(restored[0].path(), "root/readme.txt");
    assert_eq!(restored[1].path(), "root/sub1/data.bin");
    assert_eq!(restored[2].path(), "root/sub2/폭발.jpg");
}

#[test]
fn a_plain_archive_is_header_records_and_contents() {
    let files = vec![
        SourceFile::new("a/b", b"hello world!".to_vec()),
        SourceFile::new("c", Vec::new()),
    ];
    let archive = write(&files, &SerializeOption::new());
    let mut expected = b"LUSL Serialized File".to_vec();
    expected.extend_from_slice(&[1, 1, 2, 0, 0x00, 1, 2]);
    expected.extend_from_slice(&[0, 3, b'a', b'/', b'b', 0x81, 12]);
    expected.extend_from_slice(&get_checksum(b"hello world!"));
    expected.extend_from_slice(b"hello world!");
    expected.extend_from_slice(&[0, 1, b'c', 0x80]);
    expected.extend_from_slice(&get_checksum(b""));
    assert_eq!(archive, expected);
}

#[test]
fn a_compressed_entry_stores_the_length_of_its_payload_in_eight_bytes() {
    let files = vec![SourceFile::new("z", vec![0u8; 1000])];
    let option = SerializeOption::new().to_compress(true);
    let archive = write(&files, &option);
    assert_eq!(archive[24], 0x40);
    let record = MetaData::from("z", &[0u8; 1000]).serialize();
    let start = 27 + record.len();
    assert_eq!(&archive[27..start], &record[..]);
    let packed = lusl::compress::compress(&[0u8; 1000]).unwrap();
    assert_eq!(&archive[start..start + 8], &(packed.len() as u64).to_le_bytes());
    assert_eq!(&archive[start + 8..], &packed[..]);
}

#[test]
fn an_encrypted_archive_stores_the_salt_once_and_a_nonce_for_every_entry() {
    let files = vec![
        SourceFile::new("a", b"same content".to_vec()),
        SourceFile::new("a", b"same content".to_vec()),
    ];
    let option = SerializeOption::new().to_encrypt("test_password");
    let archive = write(&files, &option);
    assert_eq!(archive[24], 0x80);
    let record = MetaData::from("a", b"same content").serialize();
    let entry = record.len() + 19 + 12 + 16;
    assert_eq!(archive.len(), 27 + 32 + 2 * entry);
    let first = &archive[27 + 32..27 + 32 + entry];
    let second = &archive[27 + 32 + entry..];
    assert_eq!(&first[..record.len()], &record[..]);
    assert_eq!(&second[..record.len()], &record[..]);
    // The nonces differ, and so do the sealed payloads.
    assert_ne!(&first[record.len()..record.len() + 19], &second[record.len()..record.len() + 19]);
    assert_ne!(&first[record.len() + 19..], &second[record.len() + 19..]);
    // Another archive of the same files has another salt.
    let other = write(&files, &option);
    assert_ne!(&archive[27..27 + 32], &other[27..27 + 32]);
}

#[test]
fn an_archive_is_determined_by_its_salt_and_its_nonces() {
    let option = SerializeOption::new().to_encrypt("test_password").to_compress(true);
    let files = small_tree();
    let build = || {
        let mut serializer = Serializer::new();
        serializer.set_option(option.clone());
        let mut archive = serializer.serialize_header_with_salt(3, &[3u8; 32]).unwrap();
        for (i, file) in files.iter().enumerate() {
            let entry = serializer.serialize_file_with_nonce(file, &[i as u8; 19]).unwrap();
            archive.extend_from_slice(&entry);
        }
        assert_eq!(serializer.finish(), Ok(()));
        archive
    };
    let first = build();
    let second = build();
    assert_eq!(first, second);
    assert_eq!(&first[27..27 + 32], &[3u8; 32]);
    let (restored, end) = read(&first, &option, 100);
    assert_eq!(end, Ok(()));
    assert_restored(&files, &restored);
}

#[test]
fn a_writer_is_driven_file_by_file() {
    let files = tree_with_edge_sizes();
    for option in [SerializeOption::new(), SerializeOption::new().to_compress(true)] {
        let mut serializer = Serializer::new();
        serializer.set_option(option.clone());
        let mut archive = serializer.serialize_header(files.len() as u64).unwrap();
        for file in files.iter() {
            archive.extend_from_slice(&serializer.serialize_file(file).unwrap());
        }
        assert_eq!(serializer.finish(), Ok(()));
        assert_eq!(archive, write(&files, &option));
    }
}

#[test]
fn no_entry_is_written_before_the_header() {
    let file = SourceFile::new("a", b"content".to_vec());
    let mut serializer = Serializer::new();
    assert_eq!(serializer.serialize_file(&file), Err(ArchiveError::HeaderNotWritten));
    assert_eq!(serializer.finish(), Err(ArchiveError::HeaderNotWritten));
    serializer.serialize_header(1).unwrap();
    assert!(serializer.serialize_file(&file).is_ok());
    serializer.set_option(SerializeOption::new());
    assert_eq!(serializer.serialize_file(&file), Err(ArchiveError::HeaderNotWritten));
}

#[test]
fn no_more_entries_are_written_than_the_header_announces() {
    let file = SourceFile::new("a", b"content".to_vec());
    let mut serializer = Serializer::new();
    serializer.serialize_header(2).unwrap();
    assert_eq!(
        serializer.finish(),
        Err(ArchiveError::CountMismatch { declared: 2, found: 0 })
    );
    assert!(serializer.serialize_file(&file).is_ok());
    assert_eq!(
        serializer.finish(),
        Err(ArchiveError::CountMismatch { declared: 2, found: 1 })
    );
    assert!(serializer.serialize_file(&file).is_ok());
    assert_eq!(serializer.finish(), Ok(()));
    assert_eq!(
        serializer.serialize_file(&file),
        Err(ArchiveError::CountMismatch { declared: 2, found: 2 })
    );
    assert_eq!(serializer.finish(), Ok(()));
}

#[test]
fn encryption_wants_a_password() {
    let option = SerializeOption::new().to_encrypt("test_password");
    let archive = write(&small_tree(), &option);
    // Options cannot ask for encryption without a password, so the reader
    // of a plain archive is asked to read an encrypted one.
    let (restored, end) = read(&archive, &SerializeOption::new(), 8192);
    assert_eq!(end, Err(ArchiveError::EncryptionMismatch { archive_encrypted: true }));
    assert!(restored.is_empty());
}

#[test]
fn a_wrong_password_restores_nothing() {
    let files = small_tree();
    let archive = write(&files, &SerializeOption::new().to_encrypt("test_password"));
    let (restored, end) = read(&archive, &SerializeOption::new().to_encrypt("wrong"), 8192);
    assert_eq!(end, Err(ArchiveError::DecryptionFailed));
    assert!(restored.is_empty());
}

#[test]
fn a_compressed_archive_is_not_read_without_compression() {
    let files = small_tree();
    let archive = write(&files, &SerializeOption::new().to_compress(true));
    let (restored, end) = read(&archive, &SerializeOption::new(), 8192);
    assert_eq!(end, Err(ArchiveError::CompressionMismatch { archive_compressed: true }));
    assert!(restored.is_empty());

    let archive = write(&files, &SerializeOption::new());
    let (restored, end) = read(&archive, &SerializeOption::new().to_compress(true), 8192);
    assert_eq!(end, Err(ArchiveError::CompressionMismatch { archive_compressed: false }));
    assert!(restored.is_empty());
}

#[test]
fn an_encrypted_archive_is_not_read_without_encryption() {
    let files = small_tree();
    let archive = write(&files, &SerializeOption::new());
    let (restored, end) = read(&archive, &SerializeOption::new().to_encrypt("pw"), 8192);
    assert_eq!(end, Err(ArchiveError::EncryptionMismatch { archive_encrypted: false }));
    assert!(restored.is_empty());
}

#[test]
fn an_archive_of_another_major_version_is_not_opened() {
    let files = small_tree();
    let option = SerializeOption::new();
    let mut archive = write(&files, &option);
    archive[21] = 2;
    let (restored, end) = read(&archive, &option, 8192);
    assert_eq!(end, Err(ArchiveError::FileTooNew { major: 2, minor: 2 }));
    assert!(restored.is_empty());
    archive[21] = 0;
    let (_, end) = read(&archive, &option, 8192);
    assert_eq!(end, Err(ArchiveError::FileTooOld { major: 0 }));
    // Whatever follows the version: the header alone decides.
    let (_, end) = read(&archive[..24], &option, 8192);
    assert_eq!(end, Err(ArchiveError::FileTooOld { major: 0 }));
}

#[test]
fn an_archive_of_a_lower_minor_version_is_opened() {
    let files = small_tree();
    let option = SerializeOption::new();
    let mut archive = write(&files, &option);
    archive[22] = 1;
    archive[23] = 77;
    let (restored, end) = read(&archive, &option, 8192);
    assert_eq!(end, Ok(()));
    assert_restored(&files, &restored);
    archive[22] = 0;
    let (restored, end) = read(&archive, &option, 8192);
    assert_eq!(end, Ok(()));
    assert_restored(&files, &restored);
}

#[test]
fn an_archive_of_a_higher_minor_version_is_not_opened() {
    let files = small_tree();
    let option = SerializeOption::new();
    let mut archive = write(&files, &option);
    archive[22] = 3;
    let (restored, end) = read(&archive, &option, 8192);
    assert_eq!(end, Err(ArchiveError::MinorTooNew { major: 1, minor: 3 }));
    assert!(restored.is_empty());
}

#[test]
fn a_wrong_count_is_found_at_the_end_of_the_stream() {
    let files = small_tree();
    let option = SerializeOption::new();
    let mut archive = write(&files, &option);
    assert_eq!(archive[26], 3);
    archive[26] = 4;
    let (restored, end) = read(&archive, &option, 8192);
    assert_eq!(end, Err(ArchiveError::CountMismatch { declared: 4, found: 3 }));
    assert_restored(&files, &restored);
    archive[26] = 2;
    let (restored, end) = read(&archive, &option, 8192);
    assert_eq!(end, Err(ArchiveError::CountMismatch { declared: 2, found: 3 }));
    assert_restored(&files, &restored);
}

#[test]
fn the_count_is_not_judged_before_the_stream_ends() {
    let files = small_tree();
    let option = SerializeOption::new();
    let mut archive = write(&files, &option);
    archive[26] = 2;
    let mut deserializer = Deserializer::new();
    let mut restored = Vec::new();
    deserializer.fill_buf(&archive);
    assert_eq!(deserializer.deserialize(&mut restored), Ok(()));
    assert_eq!(restored.len(), 3);
    assert_eq!(
        deserializer.finish(&mut restored),
        Err(ArchiveError::CountMismatch { declared: 2, found: 3 })
    );
}

#[test]
fn an_altered_content_is_found_by_its_checksum() {
    let files = small_tree();
    let option = SerializeOption::new();
    let mut archive = write(&files, &option);
    // The last byte of the archive is the last byte of the third file.
    let last = archive.len() - 1;
    archive[last] ^= 0x01;
    let mut altered = files[2].data().clone();
    let end_of_data = altered.len() - 1;
    altered[end_of_data] ^= 0x01;
    let (restored, end) = read(&archive, &option, 8192);
    assert_eq!(
        end,
        Err(ArchiveError::ChecksumMismatch {
            path: String::from("root/sub2/폭발.jpg"),
            expected: get_checksum(files[2].data()),
            actual: get_checksum(&altered),
        })
    );
    // The files before it are restored and stay restored, and what was
    // restored of the entry itself is handed out last.
    assert_eq!(restored.len(), 3);
    assert_restored(&files[..2].to_vec(), &restored[..2].to_vec());
    assert_eq!(restored[2].path(), "root/sub2/폭발.jpg");
    assert_eq!(restored[2].data(), &altered);
    assert_eq!(restored[2].metadata().checksum(), &Some(get_checksum(files[2].data())));
}

#[test]
fn no_file_is_made_of_an_entry_behind_an_altered_one() {
    let files = tree_with_edge_sizes();
    let option = SerializeOption::new();
    let mut archive = write(&files, &option);
    // The third entry holds the first content of more than a few bytes.
    let before: usize = files[..2]
        .iter()
        .map(|f| MetaData::from(f.path(), f.data()).serialize().len() + f.data().len())
        .sum();
    let record = MetaData::from(files[2].path(), files[2].data()).serialize().len();
    let place = 27 + before + record + 100;
    archive[place] ^= 0x40;
    let mut altered = files[2].data().clone();
    altered[100] ^= 0x40;
    for chunk in [archive.len(), 8192, 1000, 1] {
        let (restored, end) = read(&archive, &option, chunk);
        assert_eq!(
            end,
            Err(ArchiveError::ChecksumMismatch {
                path: String::from("t/almost"),
                expected: get_checksum(files[2].data()),
                actual: get_checksum(&altered),
            })
        );
        assert_eq!(restored.len(), 3);
        assert_restored(&files[..2].to_vec(), &restored[..2].to_vec());
        assert_eq!(restored[2].path(), "t/almost");
        assert_eq!(restored[2].data(), &altered);
    }
}

#[test]
fn what_cannot_be_restored_is_not_handed_out() {
    let files = small_tree();
    let option = SerializeOption::new().to_encrypt("test_password");
    let mut archive = write(&files, &option);
    let last = archive.len() - 1;
    archive[last] ^= 0x01;
    let (restored, end) = read(&archive, &option, 8192);
    assert_eq!(end, Err(ArchiveError::DecryptionFailed));
    assert_eq!(restored.len(), 2);
    assert_restored(&files[..2].to_vec(), &restored);
}

#[test]
fn a_failure_is_met_again_and_nothing_is_lost() {
    let files = small_tree();
    let option = SerializeOption::new();
    let mut archive = write(&files, &option);
    let record = MetaData::from("root/readme.txt", b"hello world!").serialize().len();
    archive[27 + record] ^= 0xFF;
    let mut deserializer = Deserializer::new();
    let mut restored = Vec::new();
    deserializer.fill_buf(&archive[..100]);
    let first = deserializer.deserialize(&mut restored);
    assert!(matches!(first, Err(ArchiveError::ChecksumMismatch { .. })));
    assert_eq!(restored.len(), 1);
    assert_eq!(restored[0].path(), "root/readme.txt");
    assert_eq!(restored[0].data()[0], b'h' ^ 0xFF);
    assert_eq!(&restored[0].data()[1..], b"ello world!");
    let waiting = deserializer.buffered();
    deserializer.fill_buf(&archive[100..]);
    assert_eq!(deserializer.buffered(), waiting + archive.len() - 100);
    // The reader stands where it stood: asked again, it refuses the entry
    // again, and no entry behind it is restored.
    let mut again = Vec::new();
    assert_eq!(deserializer.deserialize(&mut again), first);
    assert_eq!(again, restored);
    assert_eq!(deserializer.restored_count(), 0);
    let mut at_the_end = Vec::new();
    assert_eq!(deserializer.finish(&mut at_the_end), first);
    assert_eq!(at_the_end, restored);
}

#[test]
fn a_stream_that_is_cut_short_is_refused() {
    let files = small_tree();
    let option = SerializeOption::new();
    let archive = write(&files, &option);
    for cut in [20, 24, 26, 28, 40, 100, archive.len() - 1] {
        let (_, end) = read(&archive[..cut], &option, 8192);
        assert_eq!(end, Err(ArchiveError::UnexpectedEof));
    }
    let option = SerializeOption::new().to_encrypt("pw");
    let archive = write(&files, &option);
    for cut in [20, 24, 26, 27, 40, 27 + 31, 27 + 32 + 10, 100, archive.len() - 1] {
        let (_, end) = read(&archive[..cut], &option, 8192);
        assert_eq!(end, Err(ArchiveError::UnexpectedEof));
    }
}

#[test]
fn a_stream_that_ends_behind_the_header_has_no_entries() {
    let files = small_tree();
    let option = SerializeOption::new();
    let archive = write(&files, &option);
    let (_, end) = read(&archive[..27], &option, 8192);
    assert_eq!(end, Err(ArchiveError::CountMismatch { declared: 3, found: 0 }));
    let option = SerializeOption::new().to_encrypt("pw");
    let archive = write(&files, &option);
    let (_, end) = read(&archive[..27 + 32], &option, 8192);
    assert_eq!(end, Err(ArchiveError::CountMismatch { declared: 3, found: 0 }));
}

#[test]
fn a_stream_that_ends_in_the_label_has_no_label() {
    let archive = write(&small_tree(), &SerializeOption::new());
    for cut in [0, 1, 19] {
        let (_, end) = read(&archive[..cut], &SerializeOption::new(), 8192);
        assert_eq!(end, Err(ArchiveError::WrongLabel));
    }
    let (_, end) = read(b"this is not an archive at all", &SerializeOption::new(), 8192);
    assert_eq!(end, Err(ArchiveError::WrongLabel));
}

#[test]
fn a_stream_that_ends_between_two_entries_holds_too_few() {
    let files = small_tree();
    let option = SerializeOption::new();
    let archive = write(&files, &option);
    let third = MetaData::from("root/sub2/폭발.jpg", files[2].data()).serialize().len() + 8192;
    let (restored, end) = read(&archive[..archive.len() - third], &option, 8192);
    assert_eq!(end, Err(ArchiveError::CountMismatch { declared: 3, found: 2 }));
    assert_eq!(restored.len(), 2);
}

#[test]
fn bytes_behind_the_last_entry_are_refused() {
    let files = small_tree();
    let option = SerializeOption::new();
    let mut archive = write(&files, &option);
    archive.push(0);
    let (restored, end) = read(&archive, &option, 8192);
    assert_eq!(end, Err(ArchiveError::UnexpectedEof));
    assert_eq!(restored.len(), 3);
}

#[test]
fn an_archive_without_entries_is_a_header() {
    let archive = write(&Vec::new(), &SerializeOption::new());
    assert_eq!(archive.len(), 26);
    let (restored, end) = read(&archive, &SerializeOption::new(), 8192);
    assert_eq!(end, Ok(()));
    assert!(restored.is_empty());
    let option = SerializeOption::new().to_encrypt("pw");
    let archive = write(&Vec::new(), &option);
    assert_eq!(archive.len(), 26 + 32);
    let (restored, end) = read(&archive, &option, 7);
    assert_eq!(end, Ok(()));
    assert!(restored.is_empty());
}

#[test]
fn a_reader_takes_one_item_at_a_time() {
    let files = vec![SourceFile::new("a", b"hello".to_vec())];
    let option = SerializeOption::new().to_encrypt("pw");
    let archive = write(&files, &option);
    let mut deserializer = Deserializer::new();
    let mut files_out = Vec::new();
    deserializer.set_option(option);
    assert_eq!(deserializer.advance(&mut files_out), Ok(Progress::Waiting));
    deserializer.fill_buf(&archive[..26]);
    assert_eq!(deserializer.advance(&mut files_out), Ok(Progress::Waiting));
    assert_eq!(deserializer.stage(), Stage::Header);
    deserializer.fill_buf(&archive[26..27]);
    assert_eq!(deserializer.advance(&mut files_out), Ok(Progress::Moved));
    assert_eq!(deserializer.stage(), Stage::Salt);
    assert_eq!(deserializer.advance(&mut files_out), Ok(Progress::Waiting));
    deserializer.fill_buf(&archive[27..27 + 32]);
    assert_eq!(deserializer.advance(&mut files_out), Ok(Progress::Moved));
    assert_eq!(deserializer.stage(), Stage::Entries);
    assert_eq!(deserializer.read_metadata(), None);
    assert_eq!(deserializer.read_entry(), Entry::Waiting);
    assert_eq!(deserializer.advance(&mut files_out), Ok(Progress::Waiting));
    deserializer.fill_buf(&archive[27 + 32..archive.len() - 1]);
    let record = MetaData::from("a", b"hello");
    assert_eq!(deserializer.read_metadata(), Some((record.clone(), record.serialize().len())));
    assert_eq!(deserializer.read_entry(), Entry::Waiting);
    assert_eq!(deserializer.advance(&mut files_out), Ok(Progress::Waiting));
    assert_eq!(deserializer.buffered(), archive.len() - 27 - 32 - 1);
    assert!(files_out.is_empty());
    deserializer.fill_buf(&archive[archive.len() - 1..]);
    match deserializer.read_entry() {
        Entry::Sound(file, used) => {
            assert_eq!(file.data(), &b"hello".to_vec());
            assert_eq!(used, archive.len() - 27 - 32);
        }
        other => panic!("the entry is whole: {:?}", other),
    }
    assert_eq!(deserializer.advance(&mut files_out), Ok(Progress::Restored));
    assert_eq!(files_out.len(), 1);
    assert_eq!(files_out[0].data(), &b"hello".to_vec());
    assert_eq!(files_out[0].metadata(), &record);
    assert_eq!(deserializer.advance(&mut files_out), Ok(Progress::Waiting));
    assert_eq!(files_out.len(), 1);
    assert_eq!(deserializer.file_count(), 1);
    assert_eq!(deserializer.restored_count(), 1);
    assert_eq!(deserializer.stage(), Stage::Entries);
    assert_eq!(deserializer.buffered(), 0);
    let mut restored = Vec::new();
    assert_eq!(deserializer.finish(&mut restored), Ok(()));
    assert!(restored.is_empty());
}

#[test]
fn a_reader_tells_where_it_stands() {
    let archive = write(&small_tree(), &SerializeOption::new());
    let mut deserializer = Deserializer::new();
    assert_eq!(deserializer.stage(), Stage::Header);
    assert_eq!(deserializer.buffered(), 0);
    deserializer.fill_buf(&archive[..30]);
    assert_eq!(deserializer.buffered(), 30);
    let mut restored = Vec::new();
    assert_eq!(deserializer.deserialize(&mut restored), Ok(()));
    assert_eq!(deserializer.stage(), Stage::Entries);
    assert_eq!(deserializer.file_count(), 3);
    assert_eq!(deserializer.restored_count(), 0);
    assert_eq!(deserializer.buffered(), 3);
    deserializer.fill_buf(&archive[30..]);
    assert_eq!(deserializer.deserialize(&mut restored), Ok(()));
    assert_eq!(deserializer.restored_count(), 3);
    assert_eq!(deserializer.buffered(), 0);
}

#[test]
fn an_entry_that_is_refused_is_not_taken() {
    let files = vec![SourceFile::new("a", b"hello".to_vec()), SourceFile::new("b", vec![1])];
    let mut archive = write(&files, &SerializeOption::new());
    let last = archive.len() - 1;
    archive[last] ^= 1;
    let mut deserializer = Deserializer::new();
    let mut files_out = Vec::new();
    deserializer.fill_buf(&archive);
    assert_eq!(deserializer.advance(&mut files_out), Ok(Progress::Moved));
    assert_eq!(deserializer.advance(&mut files_out), Ok(Progress::Restored));
    assert_eq!(files_out.len(), 1);
    let waiting = deserializer.buffered();
    let mismatch = ArchiveError::ChecksumMismatch {
        path: String::from("b"),
        expected: get_checksum(&[1]),
        actual: get_checksum(&[0]),
    };
    match deserializer.read_entry() {
        Entry::Damaged(file, error) => {
            assert_eq!(file.path(), "b");
            assert_eq!(file.data(), &vec![0u8]);
            assert_eq!(error, mismatch);
        }
        other => panic!("the content was altered: {:?}", other),
    }
    assert_eq!(deserializer.advance(&mut files_out), Err(mismatch.clone()));
    assert_eq!(deserializer.buffered(), waiting);
    assert_eq!(deserializer.restored_count(), 1);
    assert_eq!(files_out.len(), 2);
    assert_eq!(files_out[1].path(), "b");
    assert_eq!(files_out[1].data(), &vec![0u8]);
    assert_eq!(deserializer.advance(&mut files_out), Err(mismatch));
}

#[test]
fn an_entry_that_cannot_be_opened_is_unreadable() {
    let files = vec![SourceFile::new("a", b"hello".to_vec())];
    let option = SerializeOption::new().to_encrypt("pw");
    let mut archive = write(&files, &option);
    let last = archive.len() - 1;
    archive[last] ^= 1;
    let mut deserializer = Deserializer::new();
    deserializer.set_option(option);
    let mut files_out = Vec::new();
    deserializer.fill_buf(&archive);
    assert_eq!(deserializer.advance(&mut files_out), Ok(Progress::Moved));
    assert_eq!(deserializer.advance(&mut files_out), Ok(Progress::Moved));
    assert_eq!(deserializer.read_entry(), Entry::Unreadable(ArchiveError::DecryptionFailed));
    assert_eq!(deserializer.advance(&mut files_out), Err(ArchiveError::DecryptionFailed));
    assert!(files_out.is_empty());
}

#[test]
fn new_options_start_a_reader_anew() {
    let archive = write(&small_tree(), &SerializeOption::new());
    let mut deserializer = Deserializer::new();
    let mut restored = Vec::new();
    deserializer.fill_buf(&archive[..500]);
    assert_eq!(deserializer.deserialize(&mut restored), Ok(()));
    assert_eq!(restored.len(), 1);
    deserializer.set_option(SerializeOption::new());
    let mut again = Vec::new();
    deserializer.fill_buf(&archive);
    assert_eq!(deserializer.finish(&mut again), Ok(()));
    assert_eq!(again.len(), 3);
}

#[test]
fn a_payload_that_is_no_zlib_stream_is_refused() {
    let files = vec![SourceFile::new("z", vec![0u8; 1000])];
    let option = SerializeOption::new().to_compress(true);
    let mut archive = write(&files, &option);
    let last = archive.len() - 1;
    archive[last] ^= 0xFF;
    archive[last - 1] ^= 0xFF;
    let (restored, end) = read(&archive, &option, 8192);
    assert_eq!(end, Err(ArchiveError::DecompressionFailed));
    assert!(restored.is_empty());
}

#[test]
fn an_altered_sealed_payload_is_refused() {
    let files = small_tree();
    let option = SerializeOption::new().to_encrypt("test_password");
    let mut archive = write(&files, &option);
    let last = archive.len() - 1;
    archive[last] ^= 0x01;
    let (restored, end) = read(&archive, &option, 5000);
    assert_eq!(end, Err(ArchiveError::DecryptionFailed));
    assert_eq!(restored.len(), 2);
}

#[test]
fn entries_are_written_for_one_kind_of_archive_or_the_other() {
    let file = SourceFile::new("a", b"hello".to_vec());
    let serializer = Serializer::new();
    let raw = serializer.serialize_raw(&file).unwrap();
    let mut expected = MetaData::from("a", b"hello").serialize();
    expected.extend_from_slice(b"hello");
    assert_eq!(raw, expected);
    let sealed = serializer.serialize_with_encrypt(&file, &[1u8; 32], &[2u8; 19]).unwrap();
    assert_eq!(sealed.len(), raw.len() + 19 + 16);
    assert_eq!(&sealed[..raw.len() - 5], &raw[..raw.len() - 5]);
    assert_eq!(&sealed[raw.len() - 5..raw.len() - 5 + 19], &[2u8; 19]);
    assert_eq!(
        serializer.serialize_with_encrypt(&file, &[1u8; 5], &[2u8; 19]),
        Err(ArchiveError::EncryptionFailed)
    );
}
