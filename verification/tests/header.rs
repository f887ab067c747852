use lusl::header::{Header, FILE_LABEL};
use lusl::version::Version;

#[test]
fn header_test() {
    let header = Header::with(true, false, 83);
    let header_binary = header.to_binary_vec();
    let mut new_header = Header::new();
    let mut counter = FILE_LABEL.as_bytes().len();
    new_header
        .deserialize_label(&header_binary[..counter])
        .unwrap();
    new_header
        .deserialize_version(&header_binary[counter..counter + 4])
        .unwrap();
    counter += 4;
    new_header.deserialize_flag(&header_binary[counter..counter + 1]);
    counter += 1;
    let file_count_byte_size = header_binary[counter];
    counter += 1;
    new_header.deserialize_file_count(
        &header_binary[counter..counter + file_count_byte_size as usize],
    );
    assert_eq!(new_header.is_encrypted(), true);
    assert_eq!(new_header.is_compressed(), false);
    assert_eq!(new_header.file_count(), 83);
}

#[test]
fn version_compare_test() {
    let version1 = Version::new(1, 0, 0);
    let version2 = Version::new(1, 0, 0);
    assert_eq!(version1, version2);
    let version3 = Version::new(1, 0, 1);
    assert!(version1 < version3);
    let version4 = Version::new(1, 1, 0);
    assert!(version4 > version1);
    let version5 = Version::new(2, 0, 0);
    assert!(version5 > version1);
}

fn buffer_of(bytes: &[u8]) -> lusl::serialize::buffer::PullBuffer {
    let mut buffer = lusl::serialize::buffer::PullBuffer::new();
    buffer.fill(bytes);
    buffer
}

#[test]
fn a_header_is_label_version_flags_and_count() {
    let binary = Header::with(false, false, 3).to_binary_vec();
    let mut expected = b"LUSL Serialized File".to_vec();
    expected.extend_from_slice(&[0x01, 1, 2, 0, 0x00, 1, 3]);
    assert_eq!(binary, expected);
    assert_eq!(binary[0], FILE_LABEL.as_bytes()[0]);
    assert_eq!(binary[24], 0x00);
}

#[test]
fn the_flags_are_bit_7_and_bit_6() {
    assert_eq!(Header::with(false, false, 0).to_binary_vec()[24], 0x00);
    assert_eq!(Header::with(true, false, 0).to_binary_vec()[24], 0x80);
    assert_eq!(Header::with(false, true, 0).to_binary_vec()[24], 0x40);
    assert_eq!(Header::with(true, true, 0).to_binary_vec()[24], 0xC0);
    assert_eq!(Header::with(true, true, 0).flag_to_binary(), vec![0xC0u8]);
}

#[test]
fn the_count_is_a_counted_byte_run() {
    assert_eq!(Header::with(false, false, 0).file_count_to_binary(), vec![0u8]);
    assert_eq!(Header::with(false, false, 83).file_count_to_binary(), vec![1u8, 83]);
    assert_eq!(Header::with(false, false, 914433).file_count_to_binary(), vec![3u8, 1, 244, 13]);
    assert_eq!(
        Header::with(false, false, u64::MAX).file_count_to_binary(),
        vec![8u8, 255, 255, 255, 255, 255, 255, 255, 255]
    );
    assert_eq!(Header::with(false, false, 0).to_binary_vec().len(), 26);
}

#[test]
fn the_parts_of_a_header_are_written_one_by_one() {
    let header = Header::with(true, false, 83);
    assert_eq!(header.label_to_binary(), b"LUSL Serialized File".to_vec());
    assert_eq!(header.label_to_binary(), FILE_LABEL.as_bytes().to_vec());
    assert_eq!(header.version_to_binary(), vec![1u8, 1, 2, 0]);
    assert_eq!(header.version(), Version::new(1, 2, 0));
    assert_eq!(Header::new(), Header::with(false, false, 0));
}

#[test]
fn the_label_must_be_there_byte_for_byte() {
    let mut header = Header::new();
    assert_eq!(header.deserialize_label(b"LUSL Serialized File"), Ok(()));
    assert_eq!(
        header.deserialize_label(b"LUSL Serialized Fil"),
        Err(lusl::ArchiveError::WrongLabel)
    );
    assert_eq!(
        header.deserialize_label(b"LUSL Serialized File "),
        Err(lusl::ArchiveError::WrongLabel)
    );
    assert_eq!(
        header.deserialize_label(b"lusl serialized file"),
        Err(lusl::ArchiveError::WrongLabel)
    );
    assert_eq!(header.deserialize_label(b""), Err(lusl::ArchiveError::WrongLabel));
    assert_eq!(header, Header::new());
}

#[test]
fn a_version_wants_its_marker() {
    let mut header = Header::new();
    assert_eq!(header.deserialize_version(&[1, 1, 1, 8]), Ok(()));
    assert_eq!(header.version(), Version::new(1, 1, 8));
    assert_eq!(header.deserialize_version(&[1, 1, 0, 200, 5, 5]), Ok(()));
    assert_eq!(header.version(), Version::new(1, 0, 200));
    assert_eq!(
        header.deserialize_version(&[2, 1, 1, 1]),
        Err(lusl::ArchiveError::MissingVersionMarker)
    );
    assert_eq!(
        header.deserialize_version(&[]),
        Err(lusl::ArchiveError::MissingVersionMarker)
    );
    assert_eq!(
        header.deserialize_version(&[1, 1, 1]),
        Err(lusl::ArchiveError::InvalidVersionBytes)
    );
    assert_eq!(header.version(), Version::new(1, 0, 200));
}

#[test]
fn the_decoding_of_the_version_holds_the_gate() {
    let mut header = Header::new();
    assert_eq!(
        header.deserialize_version(&[1, 0, 9, 9]),
        Err(lusl::ArchiveError::FileTooOld { major: 0 })
    );
    assert_eq!(
        header.deserialize_version(&[1, 2, 0, 0]),
        Err(lusl::ArchiveError::FileTooNew { major: 2, minor: 0 })
    );
    assert_eq!(
        header.deserialize_version(&[1, 7, 8, 9]),
        Err(lusl::ArchiveError::FileTooNew { major: 7, minor: 8 })
    );
    assert_eq!(
        header.deserialize_version(&[1, 1, 3, 0]),
        Err(lusl::ArchiveError::MinorTooNew { major: 1, minor: 3 })
    );
    assert_eq!(
        header.deserialize_version(&[1, 1, 255, 0]),
        Err(lusl::ArchiveError::MinorTooNew { major: 1, minor: 255 })
    );
    // A version that is refused is not stored.
    assert_eq!(header, Header::new());
    assert_eq!(header.deserialize_version(&[1, 1, 2, 255]), Ok(()));
    assert_eq!(header.deserialize_version(&[1, 1, 1, 0]), Ok(()));
    assert_eq!(header.deserialize_version(&[1, 1, 0, 0]), Ok(()));
    assert_eq!(header.version(), Version::new(1, 0, 0));
}

#[test]
fn unknown_flags_are_not_looked_at() {
    let mut header = Header::new();
    header.deserialize_flag(&[0x80 | 0x3F]);
    assert_eq!(header.is_encrypted(), true);
    assert_eq!(header.is_compressed(), false);
    header.deserialize_flag(&[0x40 | 0x01]);
    assert_eq!(header.is_encrypted(), false);
    assert_eq!(header.is_compressed(), true);
    header.deserialize_flag(&[0x3F]);
    assert_eq!(header.is_encrypted(), false);
    assert_eq!(header.is_compressed(), false);
    header.deserialize_flag(&[0xFF]);
    header.deserialize_flag(&[]);
    assert_eq!(header.is_encrypted(), true);
    assert_eq!(header.is_compressed(), true);
}

#[test]
fn a_header_round_trips_through_the_buffer() {
    for (encrypted, compressed, count) in
        [(false, false, 0u64), (true, false, 83), (false, true, 914433), (true, true, u64::MAX)]
    {
        let header = Header::with(encrypted, compressed, count);
        let mut bytes = header.to_binary_vec();
        let length = bytes.len();
        bytes.extend_from_slice(&[0xAA; 7]);
        let mut option = lusl::SerializeOption::new().to_compress(compressed);
        if encrypted {
            option = option.to_encrypt("password");
        }
        assert_eq!(Header::parse(&buffer_of(&bytes), &option), Ok(Some((header, length))));
    }
}

#[test]
fn a_header_waits_until_it_is_whole() {
    let bytes = Header::with(false, false, 914433).to_binary_vec();
    let option = lusl::SerializeOption::new();
    for cut in 0..bytes.len() {
        assert_eq!(Header::parse(&buffer_of(&bytes[..cut]), &option), Ok(None));
    }
    assert_eq!(
        Header::parse(&buffer_of(&bytes), &option),
        Ok(Some((Header::with(false, false, 914433), 29)))
    );
}

fn header_of_version(major: u8, minor: u8, patch: u8) -> Vec<u8> {
    let mut bytes = Header::with(false, false, 0).to_binary_vec();
    bytes[21] = major;
    bytes[22] = minor;
    bytes[23] = patch;
    bytes
}

#[test]
fn another_major_version_is_refused() {
    let option = lusl::SerializeOption::new();
    assert_eq!(
        Header::parse(&buffer_of(&header_of_version(0, 0, 0)), &option),
        Err(lusl::ArchiveError::FileTooOld { major: 0 })
    );
    assert_eq!(
        Header::parse(&buffer_of(&header_of_version(2, 1, 0)), &option),
        Err(lusl::ArchiveError::FileTooNew { major: 2, minor: 1 })
    );
    assert_eq!(
        Header::parse(&buffer_of(&header_of_version(2, 1, 0)[..24]), &option),
        Err(lusl::ArchiveError::FileTooNew { major: 2, minor: 1 })
    );
}

#[test]
fn a_lower_minor_version_is_read_and_a_higher_is_not() {
    let option = lusl::SerializeOption::new();
    assert!(matches!(
        Header::parse(&buffer_of(&header_of_version(1, 1, 9)), &option),
        Ok(Some(_))
    ));
    assert!(matches!(
        Header::parse(&buffer_of(&header_of_version(1, 0, 0)), &option),
        Ok(Some(_))
    ));
    assert!(matches!(
        Header::parse(&buffer_of(&header_of_version(1, 2, 255)), &option),
        Ok(Some(_))
    ));
    assert_eq!(
        Header::parse(&buffer_of(&header_of_version(1, 3, 0)), &option),
        Err(lusl::ArchiveError::MinorTooNew { major: 1, minor: 3 })
    );
}

#[test]
fn the_known_flags_are_held_against_the_options() {
    let compressed = Header::with(false, true, 1).to_binary_vec();
    let encrypted = Header::with(true, false, 1).to_binary_vec();
    let both = Header::with(true, true, 1).to_binary_vec();
    let plain = Header::with(false, false, 1).to_binary_vec();
    let none = lusl::SerializeOption::new();
    let compress = lusl::SerializeOption::new().to_compress(true);
    let encrypt = lusl::SerializeOption::new().to_encrypt("password");
    assert_eq!(
        Header::parse(&buffer_of(&compressed), &none),
        Err(lusl::ArchiveError::CompressionMismatch { archive_compressed: true })
    );
    assert_eq!(
        Header::parse(&buffer_of(&plain), &compress),
        Err(lusl::ArchiveError::CompressionMismatch { archive_compressed: false })
    );
    assert_eq!(
        Header::parse(&buffer_of(&encrypted), &none),
        Err(lusl::ArchiveError::EncryptionMismatch { archive_encrypted: true })
    );
    assert_eq!(
        Header::parse(&buffer_of(&plain), &encrypt),
        Err(lusl::ArchiveError::EncryptionMismatch { archive_encrypted: false })
    );
    assert_eq!(
        Header::parse(&buffer_of(&both), &none),
        Err(lusl::ArchiveError::CompressionMismatch { archive_compressed: true })
    );
    assert!(matches!(Header::parse(&buffer_of(&compressed), &compress), Ok(Some(_))));
}

#[test]
fn unknown_flags_in_an_archive_are_tolerated() {
    let mut bytes = Header::with(false, true, 5).to_binary_vec();
    bytes[24] |= 0x3F;
    let compress = lusl::SerializeOption::new().to_compress(true);
    assert_eq!(
        Header::parse(&buffer_of(&bytes), &compress),
        Ok(Some((Header::with(false, true, 5), 27)))
    );
}

#[test]
fn what_is_no_archive_is_refused_at_the_label() {
    let option = lusl::SerializeOption::new();
    assert_eq!(
        Header::parse(&buffer_of(b"PK\x03\x04 this is a zip file, not an archive"), &option),
        Err(lusl::ArchiveError::WrongLabel)
    );
    assert_eq!(
        Header::parse(&buffer_of(b"LUSL Serialized File\x00\x01\x02\x00\x00\x00"), &option),
        Err(lusl::ArchiveError::MissingVersionMarker)
    );
}
