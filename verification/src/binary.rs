//! Bit flags, the variable-length integers of the archive format, and the
//! digest of a content.
//!
//! A number is stored as its minimal little-endian byte run: the low byte
//! first, and no byte above the highest non-zero one. The count of bytes is
//! stored beside it, so zero takes no byte at all.
//!
//! The digest of a content is its MD5 digest. It is stored in the record
//! of an entry and held against the content that is restored.

use crate::error::{ArchiveError, Failure};
use crate::serialize::meta::{absent_checksum, checksum_field, MetaData};
use md5::{Digest, Md5};
use vstd::prelude::*;

verus! {

/// The view of a byte vector that may be absent.
pub open spec fn bytes_view(bytes: Option<Vec<u8>>) -> Option<Seq<u8>> {
    match bytes {
        Some(b) => Some(b@),
        None => None,
    }
}

/// The view of the result of a function that gives bytes or fails.
pub open spec fn result_view(result: Result<Vec<u8>, ArchiveError>) -> Result<Seq<u8>, Failure> {
    match result {
        Ok(b) => Ok(b@),
        Err(e) => Err(e@),
    }
}

/// The view of a result that holds nothing or an error.
pub open spec fn unit_view(result: Result<(), ArchiveError>) -> Result<(), Failure> {
    match result {
        Ok(_) => Ok(()),
        Err(e) => Err(e@),
    }
}

/// Whether `data` has a bit of `flag` set.
pub fn is_flag_true(data: u8, flag: u8) -> (set: bool)
    ensures
        set == (data & flag != 0),
{
    data & flag != 0
}

/// What a byte run is worth when read as a little-endian number.
pub open spec fn le_value(bytes: Seq<u8>) -> nat
    decreases bytes.len(),
{
    if bytes.len() == 0 {
        0
    } else {
        bytes[0] as nat + 256 * le_value(bytes.drop_first())
    }
}

/// The minimal little-endian byte run of `n`.
pub open spec fn minimal_le(n: nat) -> Seq<u8>
    decreases n,
{
    if n == 0 {
        Seq::<u8>::empty()
    } else {
        seq![(n % 256) as u8] + minimal_le(n / 256)
    }
}

/// The `width` low bytes of `n`, the lowest first.
pub open spec fn le_bytes(n: nat, width: nat) -> Seq<u8>
    decreases width,
{
    if width == 0 {
        Seq::<u8>::empty()
    } else {
        seq![(n % 256) as u8] + le_bytes(n / 256, (width - 1) as nat)
    }
}

/// `256` to the power of `n`.
pub open spec fn pow256(n: nat) -> nat
    decreases n,
{
    if n == 0 {
        1
    } else {
        256 * pow256((n - 1) as nat)
    }
}

/// The number that a stored byte run decodes to: the value of its first
/// eight bytes. A run of more than eight bytes cannot be held in 64 bits;
/// what lies above them is dropped.
pub open spec fn decoded_u64(bytes: Seq<u8>) -> nat {
    if bytes.len() <= 8 {
        le_value(bytes)
    } else {
        le_value(bytes.take(8))
    }
}

/// A byte run of `n` bytes is worth less than `256^n`.
pub proof fn lemma_le_value_bound(bytes: Seq<u8>)
    ensures
        le_value(bytes) < pow256(bytes.len()),
    decreases bytes.len(),
{
    if bytes.len() > 0 {
        lemma_le_value_bound(bytes.drop_first());
    }
}

/// `256^8` is `2^64`.
pub proof fn lemma_pow256_eight()
    ensures
        pow256(8) == 0x1_0000_0000_0000_0000,
{
    reveal_with_fuel(pow256, 9);
}

/// `pow256` grows with its argument.
pub proof fn lemma_pow256_monotonic(a: nat, b: nat)
    requires
        a <= b,
    ensures
        pow256(a) <= pow256(b),
        pow256(a) >= 1,
    decreases b,
{
    if a < b {
        lemma_pow256_monotonic(a, (b - 1) as nat);
    } else if a > 0 {
        lemma_pow256_monotonic((a - 1) as nat, (a - 1) as nat);
    }
}

/// Decoding undoes encoding: the minimal byte run of `n` is worth `n`.
pub proof fn lemma_le_value_of_minimal(n: nat)
    ensures
        le_value(minimal_le(n)) == n,
    decreases n,
{
    if n != 0 {
        let rest = minimal_le(n / 256);
        let run = seq![(n % 256) as u8] + rest;
        lemma_le_value_of_minimal(n / 256);
        assert(run.drop_first() =~= rest);
    }
}

/// The minimal byte run of a number below `256^k` has at most `k` bytes.
pub proof fn lemma_minimal_len(n: nat, k: nat)
    requires
        n < pow256(k),
    ensures
        minimal_le(n).len() <= k,
    decreases n,
{
    if n != 0 {
        lemma_minimal_len(n / 256, (k - 1) as nat);
    }
}

/// The encoding is canonical: the minimal byte run of a non-zero number
/// ends in a non-zero byte, so no leading zero of the number is stored.
pub proof fn lemma_minimal_has_no_high_zero(n: nat)
    requires
        n != 0,
    ensures
        minimal_le(n).len() > 0,
        minimal_le(n).last() != 0,
    decreases n,
{
    let rest = minimal_le(n / 256);
    let run = seq![(n % 256) as u8] + rest;
    if n / 256 != 0 {
        lemma_minimal_has_no_high_zero(n / 256);
        assert(run.last() == rest.last());
    } else {
        assert(run.last() == (n % 256) as u8);
    }
}

/// Zero bytes above the highest byte do not change the value: decoding
/// zero-extends.
pub proof fn lemma_le_value_zero_extended(bytes: Seq<u8>, zeros: nat)
    ensures
        le_value(bytes + Seq::new(zeros, |i: int| 0u8)) == le_value(bytes),
    decreases bytes.len() + zeros,
{
    let pad = Seq::new(zeros, |i: int| 0u8);
    let all = bytes + pad;
    if bytes.len() > 0 {
        lemma_le_value_zero_extended(bytes.drop_first(), zeros);
        assert(all.drop_first() =~= bytes.drop_first() + pad);
    } else if zeros > 0 {
        let fewer = Seq::new((zeros - 1) as nat, |i: int| 0u8);
        lemma_le_value_zero_extended(bytes, (zeros - 1) as nat);
        assert(all.drop_first() =~= bytes + fewer);
    }
}

/// A stored number that was written by `minimal_le` decodes to itself.
pub proof fn lemma_decoded_of_minimal(n: u64)
    ensures
        minimal_le(n as nat).len() <= 8,
        decoded_u64(minimal_le(n as nat)) == n,
{
    lemma_pow256_eight();
    lemma_minimal_len(n as nat, 8);
    lemma_le_value_of_minimal(n as nat);
}

/// A number below `256^width` is the value of its `width` low bytes.
pub proof fn lemma_le_value_of_le_bytes(n: nat, width: nat)
    requires
        n < pow256(width),
    ensures
        le_bytes(n, width).len() == width,
        le_value(le_bytes(n, width)) == n,
    decreases width,
{
    if width > 0 {
        let rest = le_bytes(n / 256, (width - 1) as nat);
        let run = seq![(n % 256) as u8] + rest;
        lemma_le_value_of_le_bytes(n / 256, (width - 1) as nat);
        assert(run.drop_first() =~= rest);
    }
}

/// A length that was stored in eight bytes decodes to itself.
pub proof fn lemma_decoded_of_fixed(n: u64)
    ensures
        le_bytes(n as nat, 8).len() == 8,
        decoded_u64(le_bytes(n as nat, 8)) == n,
{
    lemma_pow256_eight();
    lemma_le_value_of_le_bytes(n as nat, 8);
}

/// Decodes a stored number. The byte count is taken as given: fewer than
/// eight bytes are zero-extended, and of more than eight only the first
/// eight count.
pub fn binary_to_u64(binary: &[u8]) -> (num: u64)
    ensures
        num == decoded_u64(binary@),
        binary@.len() <= 8 ==> num == le_value(binary@),
{
    let used: usize = if binary.len() <= 8 {
        binary.len()
    } else {
        8
    };
    let ghost run = binary@.take(used as int);
    let mut num: u64 = 0;
    let mut i: usize = used;
    while i > 0
        invariant
            i <= used <= 8,
            used <= binary@.len(),
            run == binary@.take(used as int),
            num == le_value(run.skip(i as int)),
        decreases i,
    {
        i = i - 1;
        proof {
            let tail = run.skip(i as int);
            assert(tail.drop_first() =~= run.skip(i + 1));
            lemma_le_value_bound(tail);
            lemma_pow256_monotonic(tail.len(), 8);
            lemma_pow256_eight();
        }
        num = num * 256 + binary[i] as u64;
    }
    proof {
        assert(run.skip(0) =~= run);
        if binary@.len() <= 8 {
            assert(run =~= binary@);
        }
    }
    num
}

/// Encodes a number as its minimal little-endian byte run.
pub fn minimal_bytes(n: u64) -> (bytes: Vec<u8>)
    ensures
        bytes@ == minimal_le(n as nat),
        bytes@.len() <= 8,
{
    let mut bytes: Vec<u8> = Vec::new();
    let mut rest: u64 = n;
    while rest != 0
        invariant
            bytes@ + minimal_le(rest as nat) == minimal_le(n as nat),
        decreases rest,
    {
        let low: u8 = (rest % 256) as u8;
        proof {
            let after = minimal_le((rest / 256) as nat);
            assert(bytes@.push(low) + after =~= bytes@ + (seq![low] + after));
        }
        bytes.push(low);
        rest = rest / 256;
    }
    proof {
        lemma_decoded_of_minimal(n);
    }
    bytes
}

/// The eight little-endian bytes of a number.
pub fn fixed_bytes(n: u64) -> (bytes: Vec<u8>)
    ensures
        bytes@ == le_bytes(n as nat, 8),
        bytes@.len() == 8,
{
    let mut bytes: Vec<u8> = Vec::new();
    let mut rest: u64 = n;
    let mut i: usize = 0;
    while i < 8
        invariant
            i <= 8,
            bytes@.len() == i,
            bytes@ + le_bytes(rest as nat, (8 - i) as nat) == le_bytes(n as nat, 8),
        decreases 8 - i,
    {
        let low: u8 = (rest % 256) as u8;
        proof {
            let after = le_bytes((rest / 256) as nat, (8 - i - 1) as nat);
            assert(bytes@.push(low) + after =~= bytes@ + (seq![low] + after));
        }
        bytes.push(low);
        rest = rest / 256;
        i = i + 1;
    }
    bytes
}

/// Appends `bytes` to `out`.
pub fn append_bytes(out: &mut Vec<u8>, bytes: &[u8])
    ensures
        final(out)@ == old(out)@ + bytes@,
{
    let mut i: usize = 0;
    while i < bytes.len()
        invariant
            i <= bytes@.len(),
            out@ == old(out)@ + bytes@.take(i as int),
        decreases bytes@.len() - i,
    {
        out.push(bytes[i]);
        i = i + 1;
    }
}

/// Whether two byte runs hold the same bytes.
pub fn same_bytes(a: &[u8], b: &[u8]) -> (same: bool)
    ensures
        same == (a@ == b@),
{
    if a.len() != b.len() {
        return false;
    }
    let mut i: usize = 0;
    while i < a.len()
        invariant
            i <= a@.len(),
            a@.len() == b@.len(),
            a@.take(i as int) == b@.take(i as int),
        decreases a@.len() - i,
    {
        if a[i] != b[i] {
            return false;
        }
        i = i + 1;
    }
    proof {
        assert(a@.take(i as int) =~= a@);
        assert(b@.take(i as int) =~= b@);
    }
    true
}

/// Length of a digest.
pub const DIGEST_LENGTH: usize = 16;

/// The MD5 digest of `data`, as the md-5 crate computes it.
pub uninterp spec fn md5_digest(data: Seq<u8>) -> Seq<u8>;

/// Calls `Md5::digest` of the md-5 crate. The result is the digest of
/// `data`; it has 16 bytes.
#[verifier::external_body]
fn md5_of(data: &[u8]) -> (digest: Vec<u8>)
    ensures
        digest@ == md5_digest(data@),
        digest@.len() == DIGEST_LENGTH,
{
    Md5::digest(data).to_vec()
}

/// The digest of a content: its MD5 digest, which has `DIGEST_LENGTH`
/// bytes.
pub open spec fn content_digest(data: Seq<u8>) -> Seq<u8> {
    if md5_digest(data).len() == DIGEST_LENGTH {
        md5_digest(data)
    } else {
        absent_checksum()
    }
}

/// The digest of a file's content. It depends on the content alone: equal
/// contents have equal digests.
pub fn get_checksum(data: &[u8]) -> (digest: Vec<u8>)
    ensures
        digest@ == content_digest(data@),
        digest@.len() == DIGEST_LENGTH,
{
    md5_of(data)
}

/// A digest is addressed by content: it has `DIGEST_LENGTH` bytes, and two
/// contents that are equal byte for byte have the same digest, wherever
/// and whenever it is computed.
pub proof fn lemma_digest_is_content_addressed(first: Seq<u8>, second: Seq<u8>)
    requires
        first =~= second,
    ensures
        content_digest(first).len() == DIGEST_LENGTH,
        content_digest(first) == content_digest(second),
{
}

/// What the comparison of a record's checksum with the digest `digest` of
/// the restored content gives: nothing where they agree, and else the
/// mismatch, with the path and both digests.
pub open spec fn checksum_outcome(
    path: Seq<char>,
    checksum: Option<Seq<u8>>,
    digest: Seq<u8>,
) -> Result<(), Failure> {
    if checksum_field(checksum) == digest {
        Ok(())
    } else {
        Err(
            Failure::ChecksumMismatch {
                path,
                expected: checksum_field(checksum),
                actual: digest,
            },
        )
    }
}

/// Compares the checksum of a record with a digest. A record without a
/// checksum stands for the all-zero digest, as it is stored.
pub fn compare_checksum(metadata: &MetaData, digest: &[u8]) -> (result: Result<(), ArchiveError>)
    ensures
        unit_view(result) == checksum_outcome(metadata@.path, metadata@.checksum, digest@),
{
    let expected = metadata.serialize_checksum();
    if same_bytes(expected.as_slice(), digest) {
        Ok(())
    } else {
        Err(
            ArchiveError::ChecksumMismatch {
                path: metadata.path().clone(),
                expected,
                actual: vstd::slice::slice_to_vec(digest),
            },
        )
    }
}

/// Checks the restored content of an entry against the checksum of its
/// record.
pub fn verify_checksum(metadata: &MetaData, data: &[u8]) -> (result: Result<(), ArchiveError>)
    ensures
        unit_view(result) == checksum_outcome(
            metadata@.path,
            metadata@.checksum,
            content_digest(data@),
        ),
{
    let digest = get_checksum(data);
    compare_checksum(metadata, digest.as_slice())
}

} // verus!
