use lusl::binary::{
    append_bytes, binary_to_u64, compare_checksum, fixed_bytes, get_checksum, is_flag_true,
    minimal_bytes, same_bytes, verify_checksum,
};
use lusl::meta::MetaData;
use lusl::ArchiveError;

#[test]
fn size_914433_takes_three_bytes() {
    assert_eq!(minimal_bytes(914433), vec![1u8, 244, 13]);
    assert_eq!(minimal_bytes(0x0DF4_01), vec![0x01u8, 0xF4, 0x0D]);
    assert_eq!(binary_to_u64(&[1, 244, 13]), 914433);
}

#[test]
fn zero_takes_no_byte() {
    assert_eq!(minimal_bytes(0), Vec::<u8>::new());
    assert_eq!(binary_to_u64(&[]), 0);
}

#[test]
fn the_largest_number_takes_eight_bytes() {
    assert_eq!(minimal_bytes(u64::MAX), vec![0xFFu8; 8]);
    assert_eq!(binary_to_u64(&[0xFF; 8]), u64::MAX);
    assert_eq!(minimal_bytes(1 << 56), vec![0u8, 0, 0, 0, 0, 0, 0, 1]);
    assert_eq!(binary_to_u64(&[0, 0, 0, 0, 0, 0, 0, 1]), 1 << 56);
}

#[test]
fn no_leading_zero_is_stored() {
    for n in [1u64, 255, 256, 65535, 65536, 914433, 1 << 32, u64::MAX - 1] {
        let bytes = minimal_bytes(n);
        assert_ne!(*bytes.last().unwrap(), 0);
        assert_eq!(binary_to_u64(&bytes), n);
    }
    assert_eq!(minimal_bytes(255), vec![255u8]);
    assert_eq!(minimal_bytes(256), vec![0u8, 1]);
}

#[test]
fn decoding_zero_extends() {
    assert_eq!(binary_to_u64(&[1, 244, 13, 0, 0]), 914433);
    assert_eq!(binary_to_u64(&[1, 244, 13, 0, 0, 0, 0, 0]), 914433);
    assert_eq!(binary_to_u64(&[7]), 7);
}

#[test]
fn bytes_above_the_eighth_are_dropped() {
    assert_eq!(binary_to_u64(&[1, 0, 0, 0, 0, 0, 0, 0, 9, 9]), 1);
    assert_eq!(binary_to_u64(&[0xFF; 15]), u64::MAX);
}

#[test]
fn a_length_is_stored_in_eight_bytes() {
    assert_eq!(fixed_bytes(914433), vec![1u8, 244, 13, 0, 0, 0, 0, 0]);
    assert_eq!(fixed_bytes(0), vec![0u8; 8]);
    assert_eq!(fixed_bytes(u64::MAX), vec![0xFFu8; 8]);
    assert_eq!(binary_to_u64(&fixed_bytes(0x0102_0304_0506_0708)), 0x0102_0304_0506_0708);
}

#[test]
fn flags_are_tested_bit_by_bit() {
    assert!(is_flag_true(0x83, 0x80));
    assert!(!is_flag_true(0x83, 0x40));
    assert!(!is_flag_true(0x83, 0x20));
    assert!(is_flag_true(0xFF, 0x01));
    assert!(!is_flag_true(0x00, 0xFF));
}

#[test]
fn bytes_are_appended_and_compared() {
    let mut out = vec![1u8, 2];
    append_bytes(&mut out, &[3, 4, 5]);
    assert_eq!(out, vec![1u8, 2, 3, 4, 5]);
    append_bytes(&mut out, &[]);
    assert_eq!(out, vec![1u8, 2, 3, 4, 5]);
    assert!(same_bytes(&[1, 2, 3], &[1, 2, 3]));
    assert!(!same_bytes(&[1, 2, 3], &[1, 2, 4]));
    assert!(!same_bytes(&[1, 2, 3], &[1, 2]));
    assert!(same_bytes(&[], &[]));
}

#[test]
fn checksum_test() {
    let digest = get_checksum(b"hello world!");
    assert_eq!(
        digest,
        vec![252u8, 63, 249, 142, 140, 106, 13, 48, 135, 213, 21, 192, 71, 63, 134, 119]
    );
    let hex: String = digest.iter().map(|b| format!("{:02x}", b)).collect();
    assert_eq!(hex, "fc3ff98e8c6a0d3087d515c0473f8677");
}

#[test]
fn the_digest_of_nothing_is_known() {
    assert_eq!(
        get_checksum(b""),
        vec![212u8, 29, 140, 217, 143, 0, 178, 4, 233, 128, 9, 152, 236, 248, 66, 126]
    );
}

#[test]
fn equal_contents_have_equal_digests() {
    let first = vec![7u8; 10_000];
    let second = vec![7u8; 10_000];
    assert_eq!(get_checksum(&first), get_checksum(&second));
    assert_eq!(get_checksum(&first).len(), 16);
}

#[test]
fn one_changed_byte_changes_the_digest() {
    let content = b"hello world!".to_vec();
    for i in 0..content.len() {
        let mut changed = content.clone();
        changed[i] ^= 1;
        assert_ne!(get_checksum(&changed), get_checksum(&content));
    }
}

fn record_of(data: &[u8]) -> MetaData {
    MetaData::from("dir/file.bin", data)
}

#[test]
fn a_restored_content_is_held_to_its_checksum() {
    let metadata = record_of(b"hello world!");
    assert_eq!(verify_checksum(&metadata, b"hello world!"), Ok(()));
    assert_eq!(
        verify_checksum(&metadata, b"hello world?"),
        Err(ArchiveError::ChecksumMismatch {
            path: String::from("dir/file.bin"),
            expected: get_checksum(b"hello world!"),
            actual: get_checksum(b"hello world?"),
        })
    );
}

#[test]
fn a_digest_is_compared_with_the_record() {
    let metadata = record_of(b"abc");
    let digest = get_checksum(b"abc");
    assert_eq!(compare_checksum(&metadata, &digest), Ok(()));
    let mut other = digest.clone();
    other[15] ^= 0x80;
    assert_eq!(
        compare_checksum(&metadata, &other),
        Err(ArchiveError::ChecksumMismatch {
            path: String::from("dir/file.bin"),
            expected: digest,
            actual: other,
        })
    );
}

#[test]
fn a_record_without_checksum_stands_for_zeros() {
    let metadata = MetaData::new();
    assert_eq!(compare_checksum(&metadata, &[0u8; 16]), Ok(()));
    assert_eq!(
        compare_checksum(&metadata, &[1u8; 16]),
        Err(ArchiveError::ChecksumMismatch {
            path: String::new(),
            expected: vec![0u8; 16],
            actual: vec![1u8; 16],
        })
    );
}
