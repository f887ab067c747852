//! The record that precedes the payload of an entry.
//!
//! A record holds the length of the path as two big-endian bytes and the
//! path in UTF-8; one byte whose upper three bits tell the kind of file and
//! whose lower four bits count the bytes of the size; the size as its
//! minimal little-endian bytes; and a checksum of 16 bytes, which are all
//! zero where no checksum was computed.

use crate::binary::{
    append_bytes, binary_to_u64, decoded_u64, get_checksum, is_flag_true,
    lemma_decoded_of_minimal, content_digest, minimal_bytes, minimal_le, DIGEST_LENGTH,
};
use crate::serialize::buffer::PullBuffer;
use crate::serialize::header::Parsed;
use vstd::prelude::*;
use vstd::utf8::{decode_utf8, encode_utf8, is_char_boundary, valid_utf8};

verus! {

/// The flag of a regular file.
pub const FILE_FLAG: u8 = 0x80;

/// The flag of a directory.
pub const DIR_FLAG: u8 = 0x40;

/// The flag of a symbolic link.
pub const SYMLINK_FLAG: u8 = 0x20;

/// The longest path that a record can hold, in bytes.
pub const MAX_PATH_LENGTH: usize = 65535;

/// The kind of file that an entry stands for.
#[derive(Clone, Copy, Debug, PartialEq, Eq, Structural)]
pub enum FileType {
    Regular,
    Directory,
    Symlink,
}

/// The record of an entry.
#[derive(Clone, Debug, PartialEq, Eq)]
pub struct MetaData {
    path: String,
    size: u64,
    file_type: Option<FileType>,
    checksum: Option<Vec<u8>>,
}

/// What a `MetaData` holds.
pub struct MetaModel {
    pub path: Seq<char>,
    pub size: u64,
    pub file_type: Option<FileType>,
    pub checksum: Option<Seq<u8>>,
}

impl View for MetaData {
    type V = MetaModel;

    closed spec fn view(&self) -> MetaModel {
        MetaModel {
            path: self.path@,
            size: self.size,
            file_type: self.file_type,
            checksum: match self.checksum {
                Some(c) => Some(c@),
                None => None,
            },
        }
    }
}

/// The last position up to `at` at which `bytes` can be cut between two
/// characters.
pub open spec fn last_boundary(bytes: Seq<u8>, at: int) -> int
    decreases at,
{
    if at <= 0 {
        0
    } else if is_char_boundary(bytes, at) {
        at
    } else {
        last_boundary(bytes, at - 1)
    }
}

/// The bytes of a path as a record stores them: its UTF-8 encoding, cut
/// after the last character that ends within `MAX_PATH_LENGTH` bytes.
pub open spec fn stored_path(path: Seq<char>) -> Seq<u8> {
    let bytes = encode_utf8(path);
    if bytes.len() <= MAX_PATH_LENGTH {
        bytes
    } else {
        bytes.take(last_boundary(bytes, MAX_PATH_LENGTH as int))
    }
}

/// The path that a reader puts in place of stored bytes that are no UTF-8.
pub open spec fn fallback_path() -> Seq<char> {
    "untitled.bin"@
}

/// The path that stored bytes stand for.
pub open spec fn decoded_path(bytes: Seq<u8>) -> Seq<char> {
    if valid_utf8(bytes) {
        decode_utf8(bytes)
    } else {
        fallback_path()
    }
}

/// The three bits that store a kind of file.
pub open spec fn type_bits(file_type: Option<FileType>) -> u8 {
    match file_type {
        Some(FileType::Regular) => FILE_FLAG,
        Some(FileType::Directory) => DIR_FLAG,
        Some(FileType::Symlink) => SYMLINK_FLAG,
        None => 0,
    }
}

/// The kind of file that the upper three bits of `flag` store: a kind has
/// its bit set and the other two clear.
pub open spec fn type_of_flags(flag: u8) -> Option<FileType> {
    let file = flag & FILE_FLAG != 0;
    let dir = flag & DIR_FLAG != 0;
    let symlink = flag & SYMLINK_FLAG != 0;
    if file && !dir && !symlink {
        Some(FileType::Regular)
    } else if !file && dir && !symlink {
        Some(FileType::Directory)
    } else if !file && !dir && symlink {
        Some(FileType::Symlink)
    } else {
        None
    }
}

/// The byte that holds the kind of file and the count of the size's bytes.
pub open spec fn type_size_byte(file_type: Option<FileType>, size: u64) -> u8 {
    (type_bits(file_type) + minimal_le(size as nat).len()) as u8
}

/// Sixteen zero bytes: the checksum of a record without one.
pub open spec fn absent_checksum() -> Seq<u8> {
    Seq::new(DIGEST_LENGTH as nat, |i: int| 0u8)
}

/// The checksum as a record stores it. Anything but a digest of 16 bytes
/// is stored as the all-zero checksum.
pub open spec fn checksum_field(checksum: Option<Seq<u8>>) -> Seq<u8> {
    match checksum {
        Some(c) => if c.len() == DIGEST_LENGTH {
            c
        } else {
            absent_checksum()
        },
        None => absent_checksum(),
    }
}

/// The two big-endian bytes of a length.
pub open spec fn be16(n: nat) -> Seq<u8> {
    seq![(n / 256) as u8, (n % 256) as u8]
}

/// The bytes that store a path: its length, then the path.
pub open spec fn path_bytes(path: Seq<char>) -> Seq<u8> {
    be16(stored_path(path).len()) + stored_path(path)
}

/// The bytes that store the kind of file and the size.
pub open spec fn type_size_bytes(file_type: Option<FileType>, size: u64) -> Seq<u8> {
    seq![type_size_byte(file_type, size)] + minimal_le(size as nat)
}

/// The bytes of a record.
pub open spec fn metadata_bytes(metadata: MetaModel) -> Seq<u8> {
    path_bytes(metadata.path) + type_size_bytes(metadata.file_type, metadata.size)
        + checksum_field(metadata.checksum)
}

/// The record at the start of `bytes`. Every field is taken at the length
/// that the bytes before it announce; a record is never refused.
pub open spec fn parse_metadata(bytes: Seq<u8>) -> Parsed<MetaModel> {
    if bytes.len() < 2 {
        Parsed::Incomplete
    } else {
        let path_end = 2 + bytes[0] * 256 + bytes[1];
        if bytes.len() < path_end + 1 {
            Parsed::Incomplete
        } else {
            let size_end = path_end + 1 + (bytes[path_end] & 0x0F);
            if bytes.len() < size_end + DIGEST_LENGTH {
                Parsed::Incomplete
            } else {
                Parsed::Complete(
                    MetaModel {
                        path: decoded_path(bytes.subrange(2, path_end)),
                        size: decoded_u64(bytes.subrange(path_end + 1, size_end)) as u64,
                        file_type: type_of_flags(bytes[path_end]),
                        checksum: Some(bytes.subrange(size_end, size_end + DIGEST_LENGTH)),
                    },
                    (size_end + DIGEST_LENGTH) as nat,
                )
            }
        }
    }
}

/// Calls `String::from_utf8` on a copy of `bytes`. It gives the text that
/// the bytes encode, and refuses bytes that are no valid UTF-8.
#[verifier::external_body]
fn text_of_utf8(bytes: &[u8]) -> (text: Option<String>)
    ensures
        text.is_some() == valid_utf8(bytes@),
        text matches Some(t) ==> t@ == decode_utf8(bytes@),
{
    match String::from_utf8(bytes.to_vec()) {
        Ok(text) => Some(text),
        Err(_) => None,
    }
}

impl MetaData {
    /// An empty record: no path, no size, no kind and no checksum.
    pub fn new() -> (metadata: Self)
        ensures
            metadata@ == (MetaModel {
                path: Seq::<char>::empty(),
                size: 0,
                file_type: None,
                checksum: None,
            }),
    {
        MetaData { path: String::new(), size: 0, file_type: None, checksum: None }
    }

    /// The record of a regular file at `path` with the content `data`: its
    /// size is the length of the content and its checksum the content's
    /// digest.
    pub fn from(path: &str, data: &[u8]) -> (metadata: Self)
        ensures
            metadata@ == (MetaModel {
                path: path@,
                size: data@.len() as u64,
                file_type: Some(FileType::Regular),
                checksum: Some(content_digest(data@)),
            }),
    {
        MetaData {
            path: path.to_owned(),
            size: data.len() as u64,
            file_type: Some(FileType::Regular),
            checksum: Some(get_checksum(data)),
        }
    }

    /// Sets the checksum to the digest of `data`.
    pub fn make_checksum(&mut self, data: &[u8])
        ensures
            final(self)@ == (MetaModel { checksum: Some(content_digest(data@)), ..old(self)@ }),
    {
        self.checksum = Some(get_checksum(data));
    }

    /// The path of the file, relative to the root of the archive.
    pub fn path(&self) -> (path: &String)
        ensures
            path@ == self@.path,
    {
        &self.path
    }

    /// The length of the file's content.
    pub fn size(&self) -> (size: u64)
        ensures
            size == self@.size,
    {
        self.size
    }

    /// The kind of file, where the record tells one.
    pub fn file_type(&self) -> (file_type: Option<FileType>)
        ensures
            file_type == self@.file_type,
    {
        self.file_type
    }

    /// The checksum of the file's content, where the record has one.
    pub fn checksum(&self) -> (checksum: &Option<Vec<u8>>)
        ensures
            match (*checksum, self@.checksum) {
                (Some(c), Some(d)) => c@ == d,
                (None, None) => true,
                _ => false,
            },
    {
        &self.checksum
    }

    /// The bytes that store the path. A path of more than
    /// `MAX_PATH_LENGTH` bytes is cut after its last character within them.
    pub fn serialize_path(&self) -> (binary: Vec<u8>)
        ensures
            binary@ == path_bytes(self@.path),
    {
        let text = self.path.as_str();
        let bytes = text.as_bytes();
        proof {
            vstd::utf8::encode_utf8_valid_utf8(text@);
        }
        let mut length: usize = bytes.len();
        if length > MAX_PATH_LENGTH {
            length = MAX_PATH_LENGTH;
            while !text.is_char_boundary(length)
                invariant
                    0 <= length <= MAX_PATH_LENGTH < bytes@.len(),
                    bytes@ == encode_utf8(text@),
                    valid_utf8(bytes@),
                    last_boundary(bytes@, length as int) == last_boundary(
                        bytes@,
                        MAX_PATH_LENGTH as int,
                    ),
                decreases length,
            {
                length = length - 1;
            }
        }
        let mut binary: Vec<u8> = Vec::new();
        binary.push((length / 256) as u8);
        binary.push((length % 256) as u8);
        let stored = vstd::slice::slice_subrange(bytes, 0, length);
        append_bytes(&mut binary, stored);
        binary
    }

    /// The bytes that store the kind of file and the size.
    pub fn serialize_type_size(&self) -> (binary: Vec<u8>)
        ensures
            binary@ == type_size_bytes(self@.file_type, self@.size),
    {
        let mut flag_and_size: u8 = match self.file_type {
            Some(FileType::Regular) => FILE_FLAG,
            Some(FileType::Directory) => DIR_FLAG,
            Some(FileType::Symlink) => SYMLINK_FLAG,
            None => 0,
        };
        let run = minimal_bytes(self.size);
        flag_and_size += run.len() as u8;
        let mut binary: Vec<u8> = Vec::new();
        binary.push(flag_and_size);
        append_bytes(&mut binary, run.as_slice());
        binary
    }

    /// The 16 bytes that store the checksum.
    pub fn serialize_checksum(&self) -> (binary: Vec<u8>)
        ensures
            binary@ == checksum_field(self@.checksum),
    {
        let mut binary: Vec<u8> = Vec::new();
        match &self.checksum {
            Some(c) => {
                if c.len() == DIGEST_LENGTH {
                    append_bytes(&mut binary, c.as_slice());
                    return binary;
                }
            },
            None => {},
        }
        let mut i: usize = 0;
        while i < DIGEST_LENGTH
            invariant
                i <= DIGEST_LENGTH,
                binary@ == Seq::new(i as nat, |j: int| 0u8),
            decreases DIGEST_LENGTH - i,
        {
            binary.push(0);
            i = i + 1;
        }
        binary
    }

    /// The bytes of the record.
    pub fn serialize(&self) -> (binary: Vec<u8>)
        ensures
            binary@ == metadata_bytes(self@),
    {
        let mut binary: Vec<u8> = Vec::new();
        let path = self.serialize_path();
        append_bytes(&mut binary, path.as_slice());
        let type_size = self.serialize_type_size();
        append_bytes(&mut binary, type_size.as_slice());
        let checksum = self.serialize_checksum();
        append_bytes(&mut binary, checksum.as_slice());
        binary
    }

    /// Reads the path from its stored bytes. Bytes that are no UTF-8 give
    /// the path `untitled.bin`.
    pub fn deserialize_path(&mut self, name_binary: &[u8])
        ensures
            final(self)@ == (MetaModel { path: decoded_path(name_binary@), ..old(self)@ }),
    {
        self.path = match text_of_utf8(name_binary) {
            Some(text) => text,
            None => "untitled.bin".to_owned(),
        };
    }

    /// Reads the kind of file from the byte that holds it.
    pub fn deserialize_type(&mut self, type_flag: u8)
        ensures
            final(self)@ == (MetaModel { file_type: type_of_flags(type_flag), ..old(self)@ }),
    {
        let file = is_flag_true(type_flag, FILE_FLAG);
        let dir = is_flag_true(type_flag, DIR_FLAG);
        let symlink = is_flag_true(type_flag, SYMLINK_FLAG);
        self.file_type = if file && !dir && !symlink {
            Some(FileType::Regular)
        } else if !file && dir && !symlink {
            Some(FileType::Directory)
        } else if !file && !dir && symlink {
            Some(FileType::Symlink)
        } else {
            None
        };
    }

    /// Reads the size from its stored bytes.
    pub fn deserialize_size(&mut self, size_binary: &[u8])
        ensures
            final(self)@ == (MetaModel { size: decoded_u64(size_binary@) as u64, ..old(self)@ }),
    {
        self.size = binary_to_u64(size_binary);
    }

    /// Takes the stored bytes as the checksum.
    pub fn deserialize_checksum(&mut self, checksum_binary: &[u8])
        ensures
            final(self)@ == (MetaModel { checksum: Some(checksum_binary@), ..old(self)@ }),
    {
        self.checksum = Some(vstd::slice::slice_to_vec(checksum_binary));
    }

    /// Reads the record that starts at position `start` of `buffer`
    /// without taking it. The result is the record and the number of bytes
    /// that it takes, or `None` where more bytes must arrive first.
    pub fn parse(buffer: &PullBuffer, start: usize) -> (result: Option<(MetaData, usize)>)
        ensures
            start > buffer@.len() ==> result is None,
            start <= buffer@.len() ==> match parse_metadata(buffer@.skip(start as int)) {
                Parsed::Complete(metadata, used) => result matches Some(found) && found.0@
                    == metadata && found.1 == used,
                Parsed::Incomplete => result is None,
                Parsed::Invalid(_) => false,
            },
    {
        if start > buffer.len() {
            return None;
        }
        let ghost bytes = buffer@.skip(start as int);
        let available: usize = buffer.len() - start;
        if available < 2 {
            return None;
        }
        let mut metadata = MetaData::new();
        let path_length = buffer.peek(start, 2);
        let path_size: usize = path_length[0] as usize * 0x100 + path_length[1] as usize;
        if available - 2 < path_size + 1 {
            return None;
        }
        let name = buffer.peek(start + 2, path_size);
        proof {
            assert(name@ =~= bytes.subrange(2, 2 + path_size));
        }
        metadata.deserialize_path(name.as_slice());
        let flag = buffer.peek(start + 2 + path_size, 1);
        let flag_and_byte_count: u8 = flag[0];
        metadata.deserialize_type(flag_and_byte_count);
        let size_count: usize = (flag_and_byte_count & 0xF) as usize;
        proof {
            assert(flag_and_byte_count & 0xF <= 15) by (bit_vector);
        }
        let fixed: usize = 3 + path_size;
        if available - fixed < size_count + DIGEST_LENGTH {
            return None;
        }
        let size = buffer.peek(start + fixed, size_count);
        proof {
            assert(size@ =~= bytes.subrange(fixed as int, fixed + size_count));
        }
        metadata.deserialize_size(size.as_slice());
        let checksum = buffer.peek(start + fixed + size_count, DIGEST_LENGTH);
        proof {
            assert(checksum@ =~= bytes.subrange(
                fixed + size_count,
                fixed + size_count + DIGEST_LENGTH,
            ));
        }
        metadata.deserialize_checksum(checksum.as_slice());
        Some((metadata, fixed + size_count + DIGEST_LENGTH))
    }
}

/// A count of up to eight in the lower bits of a byte leaves the upper
/// three bits as they are, and is read back from the lower four.
proof fn lemma_count_beside_kind(kind: u8, count: u8)
    by (bit_vector)
    requires
        kind == 0x80 || kind == 0x40 || kind == 0x20 || kind == 0x00,
        count <= 8,
    ensures
        ((kind + count) as u8) & 0x0F == count,
        ((kind + count) as u8) & 0x80 == kind & 0x80,
        ((kind + count) as u8) & 0x40 == kind & 0x40,
        ((kind + count) as u8) & 0x20 == kind & 0x20,
{
}

/// The byte of kind and count gives both back: the lower four bits hold a
/// count of up to eight bytes, and the upper three the kind.
pub proof fn lemma_type_size_byte_round_trip(file_type: Option<FileType>, size: u64)
    ensures
        (type_size_byte(file_type, size) & 0x0F) == minimal_le(size as nat).len(),
        type_of_flags(type_size_byte(file_type, size)) == file_type,
{
    lemma_decoded_of_minimal(size);
    let count: u8 = minimal_le(size as nat).len() as u8;
    lemma_count_beside_kind(type_bits(file_type), count);
    assert(0x80u8 & 0x80 != 0 && 0x80u8 & 0x40 == 0 && 0x80u8 & 0x20 == 0) by (bit_vector);
    assert(0x40u8 & 0x80 == 0 && 0x40u8 & 0x40 != 0 && 0x40u8 & 0x20 == 0) by (bit_vector);
    assert(0x20u8 & 0x80 == 0 && 0x20u8 & 0x40 == 0 && 0x20u8 & 0x20 != 0) by (bit_vector);
    assert(0x00u8 & 0x80 == 0 && 0x00u8 & 0x40 == 0 && 0x00u8 & 0x20 == 0) by (bit_vector);
}

/// The last place up to `at` at which a text can be cut lies between two
/// of its characters.
pub proof fn lemma_last_boundary(bytes: Seq<u8>, at: int)
    requires
        valid_utf8(bytes),
        0 <= at <= bytes.len(),
    ensures
        0 <= last_boundary(bytes, at) <= at,
        is_char_boundary(bytes, last_boundary(bytes, at)),
    decreases at,
{
    if at > 0 && !is_char_boundary(bytes, at) {
        lemma_last_boundary(bytes, at - 1);
    }
}

/// A path is stored in at most `MAX_PATH_LENGTH` bytes. What is stored is
/// the start of the path's encoding and is itself a text: a path that is
/// too long is cut between two characters, never inside one, so that a
/// reader gets the start of the path and not the fallback path.
pub proof fn lemma_stored_path_is_a_text(path: Seq<char>)
    ensures
        stored_path(path).len() <= MAX_PATH_LENGTH,
        stored_path(path) == encode_utf8(path).take(stored_path(path).len() as int),
        valid_utf8(stored_path(path)),
        decoded_path(stored_path(path)) == path.take(
            decoded_path(stored_path(path)).len() as int,
        ),
        encode_utf8(path).len() <= MAX_PATH_LENGTH ==> decoded_path(stored_path(path)) == path,
{
    let bytes = encode_utf8(path);
    vstd::utf8::encode_utf8_valid_utf8(path);
    vstd::utf8::encode_utf8_decode_utf8(path);
    if bytes.len() <= MAX_PATH_LENGTH {
        assert(bytes.take(bytes.len() as int) =~= bytes);
        assert(path.take(path.len() as int) =~= path);
    } else {
        lemma_last_boundary(bytes, MAX_PATH_LENGTH as int);
        let cut = last_boundary(bytes, MAX_PATH_LENGTH as int);
        vstd::utf8::valid_utf8_split(bytes, cut);
        vstd::utf8::decode_utf8_split(bytes, cut);
        let head = decode_utf8(bytes.subrange(0, cut));
        let tail = decode_utf8(bytes.subrange(cut, bytes.len() as int));
        assert(bytes.take(cut) =~= bytes.subrange(0, cut));
        assert((head + tail).take(head.len() as int) =~= head);
    }
}

/// How many bytes a record takes.
pub open spec fn metadata_length(metadata: MetaModel) -> nat {
    2 + stored_path(metadata.path).len() + 1 + minimal_le(metadata.size as nat).len()
        + DIGEST_LENGTH as nat
}

/// Whether a record is stored as it is: its path fits in
/// `MAX_PATH_LENGTH` bytes and it has a checksum of `DIGEST_LENGTH` bytes.
pub open spec fn storable(metadata: MetaModel) -> bool {
    &&& encode_utf8(metadata.path).len() <= MAX_PATH_LENGTH
    &&& metadata.checksum matches Some(c) && c.len() == DIGEST_LENGTH
}

/// A record that was written is read back, whatever follows it in the
/// stream.
pub proof fn lemma_metadata_round_trip(metadata: MetaModel, rest: Seq<u8>)
    requires
        storable(metadata),
    ensures
        metadata_bytes(metadata).len() == metadata_length(metadata),
        parse_metadata(metadata_bytes(metadata) + rest) == Parsed::Complete(
            metadata,
            metadata_length(metadata),
        ),
{
    let path = stored_path(metadata.path);
    let run = minimal_le(metadata.size as nat);
    let all = metadata_bytes(metadata) + rest;
    let path_end: int = 2 + path.len() as int;
    let size_end: int = path_end + 1 + run.len() as int;
    lemma_decoded_of_minimal(metadata.size);
    lemma_type_size_byte_round_trip(metadata.file_type, metadata.size);
    vstd::utf8::encode_utf8_valid_utf8(metadata.path);
    vstd::utf8::encode_utf8_decode_utf8(metadata.path);
    assert(all.subrange(2, path_end) =~= path);
    assert(all.subrange(path_end + 1, size_end) =~= run);
    assert(all.subrange(size_end, size_end + DIGEST_LENGTH) =~= metadata.checksum->0);
}

/// A record is read from the bytes that have arrived: once it is
/// complete, bytes that arrive later change nothing.
pub proof fn lemma_parse_metadata_stable(bytes: Seq<u8>, more: Seq<u8>)
    requires
        parse_metadata(bytes) is Complete,
    ensures
        parse_metadata(bytes + more) == parse_metadata(bytes),
{
    let all = bytes + more;
    let path_end = 2 + bytes[0] * 256 + bytes[1];
    let size_end = path_end + 1 + (bytes[path_end] & 0x0F);
    assert(all.subrange(2, path_end) =~= bytes.subrange(2, path_end));
    assert(all.subrange(path_end + 1, size_end) =~= bytes.subrange(path_end + 1, size_end));
    assert(all.subrange(size_end, size_end + DIGEST_LENGTH) =~= bytes.subrange(
        size_end,
        size_end + DIGEST_LENGTH,
    ));
}

} // verus!
