//! The stream cipher of an encrypted archive.
//!
//! A payload is cut into chunks of `CHUNK_LENGTH` bytes. Each chunk is
//! sealed with XChaCha20-Poly1305 under a nonce made of the entry's nonce,
//! the chunk's position and a flag that marks the last chunk, which is the
//! STREAM construction with a 32-bit big-endian counter. Every payload ends
//! with a chunk sealed as the last one; where the payload is a multiple of
//! the chunk length, that chunk is empty. A sealed chunk is `TAG_LENGTH`
//! bytes longer than the chunk.
//!
//! The key is derived from a password and a salt with Argon2i.

use crate::binary::{bytes_view, result_view};
use crate::error::{ArchiveError, Failure};
use chacha20poly1305::aead::rand_core::RngCore;
use chacha20poly1305::aead::stream::{NewStream, StreamBE32, StreamPrimitive};
use chacha20poly1305::aead::OsRng;
use chacha20poly1305::{KeyInit, XChaCha20Poly1305};
use vstd::prelude::*;
use vstd::string::StringSliceAdditionalSpecFns;

verus! {

/// Length of the nonce that is stored before an entry's ciphertext.
pub const NONCE_LENGTH: usize = 19;

/// Length of the salt that is stored after the header.
pub const SALT_LENGTH: usize = 32;

/// Length of the key of the cipher.
pub const KEY_LENGTH: usize = 32;

/// By how much a sealed chunk is longer than the chunk.
pub const TAG_LENGTH: usize = 16;

/// Length of every chunk of a payload but the last.
pub const CHUNK_LENGTH: usize = 8192;

/// The key that Argon2 derives from `password` and `salt` with the default
/// parameters of the argon2 crate, where it derives one.
pub uninterp spec fn argon2_key(password: Seq<u8>, salt: Seq<u8>) -> Option<Seq<u8>>;

/// What the STREAM primitive makes of the chunk `plain` at `position`,
/// where it seals it.
pub uninterp spec fn stream_sealed(
    key: Seq<u8>,
    nonce: Seq<u8>,
    position: u32,
    last: bool,
    plain: Seq<u8>,
) -> Option<Seq<u8>>;

/// What the STREAM primitive makes of the sealed chunk `sealed` at
/// `position`, where it accepts it.
pub uninterp spec fn stream_opened(
    key: Seq<u8>,
    nonce: Seq<u8>,
    position: u32,
    last: bool,
    sealed: Seq<u8>,
) -> Option<Seq<u8>>;

/// The inputs on which Argon2 derives a key: the salt has 8 bytes or more,
/// and neither input has more than `u32::MAX` bytes.
pub open spec fn argon2_accepts(password: Seq<u8>, salt: Seq<u8>) -> bool {
    8 <= salt.len() <= u32::MAX && password.len() <= u32::MAX
}

/// Calls `try_fill_bytes` of `OsRng`, the random number generator of the
/// operating system, on an array of `N` bytes. Nothing is known of the
/// bytes; `None` stands for its error, which it gives where the operating
/// system delivers no random bytes.
#[verifier::external_body]
fn random_bytes<const N: usize>() -> (bytes: Option<[u8; N]>) {
    let mut bytes = [0u8; N];
    match OsRng.try_fill_bytes(&mut bytes) {
        Ok(_) => Some(bytes),
        Err(_) => None,
    }
}

/// A fresh nonce, or `None` where the operating system delivers no
/// random bytes. A nonce is drawn anew for every entry, so that none is
/// used twice under one key.
pub fn make_nonce() -> (nonce: Option<[u8; NONCE_LENGTH]>)
    ensures
        nonce matches Some(bytes) ==> bytes@.len() == NONCE_LENGTH,
{
    random_bytes::<NONCE_LENGTH>()
}

/// A fresh salt, or `None` where the operating system delivers no random
/// bytes. A salt is drawn once for an archive.
pub fn make_salt() -> (salt: Option<[u8; SALT_LENGTH]>)
    ensures
        salt matches Some(bytes) ==> bytes@.len() == SALT_LENGTH,
{
    random_bytes::<SALT_LENGTH>()
}

/// Calls `argon2::hash_raw` with the crate's default configuration. The
/// result is what it gives for this password and salt. The configuration
/// asks for a hash of 32 bytes, and the call is refused on the lengths of
/// its inputs alone: a salt under 8 bytes, or an input over `u32::MAX`
/// bytes.
#[verifier::external_body]
fn argon2_hash(password: &[u8], salt: &[u8]) -> (key: Option<Vec<u8>>)
    ensures
        bytes_view(key) == argon2_key(password@, salt@),
        key matches Some(k) ==> k@.len() == KEY_LENGTH,
        key.is_some() == argon2_accepts(password@, salt@),
{
    match argon2::hash_raw(password, salt, &argon2::Config::default()) {
        Ok(key) => Some(key),
        Err(_) => None,
    }
}

/// Calls `StreamBE32::encrypt` of the aead crate on a cipher made from
/// `key` and a stream made from `nonce`. The result is what it gives for
/// these arguments; a sealed chunk is the chunk's length and a tag long.
#[verifier::external_body]
fn seal_chunk(key: &[u8], nonce: &[u8], position: u32, last: bool, plain: &[u8]) -> (sealed:
    Option<Vec<u8>>)
    requires
        key@.len() == KEY_LENGTH,
        nonce@.len() == NONCE_LENGTH,
    ensures
        bytes_view(sealed) == stream_sealed(key@, nonce@, position, last, plain@),
        sealed matches Some(s) ==> s@.len() == plain@.len() + TAG_LENGTH,
{
    let cipher = match XChaCha20Poly1305::new_from_slice(key) {
        Ok(cipher) => cipher,
        Err(_) => return None,
    };
    let stream = StreamBE32::from_aead(cipher, nonce.into());
    stream.encrypt(position, last, plain).ok()
}

/// Calls `StreamBE32::decrypt` of the aead crate on a cipher made from
/// `key` and a stream made from `nonce`. The result is what it gives for
/// these arguments; an opened chunk is a tag shorter than the sealed one.
#[verifier::external_body]
fn open_chunk(key: &[u8], nonce: &[u8], position: u32, last: bool, sealed: &[u8]) -> (plain:
    Option<Vec<u8>>)
    requires
        key@.len() == KEY_LENGTH,
        nonce@.len() == NONCE_LENGTH,
    ensures
        bytes_view(plain) == stream_opened(key@, nonce@, position, last, sealed@),
        plain matches Some(p) ==> p@.len() + TAG_LENGTH == sealed@.len(),
{
    let cipher = match XChaCha20Poly1305::new_from_slice(key) {
        Ok(cipher) => cipher,
        Err(_) => return None,
    };
    let stream = StreamBE32::from_aead(cipher, nonce.into());
    stream.decrypt(position, last, sealed).ok()
}

/// A sealed chunk: what the cipher makes of `plain`, which is a tag longer
/// than `plain`.
pub open spec fn sealed(key: Seq<u8>, nonce: Seq<u8>, position: u32, last: bool, plain: Seq<u8>)
    -> Option<Seq<u8>> {
    match stream_sealed(key, nonce, position, last, plain) {
        Some(s) => if s.len() == plain.len() + TAG_LENGTH {
            Some(s)
        } else {
            None
        },
        None => None,
    }
}

/// An opened chunk: what the cipher makes of `chunk`, which is a tag
/// shorter than `chunk`.
pub open spec fn opened(key: Seq<u8>, nonce: Seq<u8>, position: u32, last: bool, chunk: Seq<u8>)
    -> Option<Seq<u8>> {
    match stream_opened(key, nonce, position, last, chunk) {
        Some(p) => if p.len() + TAG_LENGTH == chunk.len() {
            Some(p)
        } else {
            None
        },
        None => None,
    }
}

/// The key, the nonce and the position of a stream.
pub struct StreamModel {
    pub key: Seq<u8>,
    pub nonce: Seq<u8>,
    pub position: u32,
}

/// The chunk that an encryptor in state `stream` makes of `plain` when
/// more chunks follow. The last position is kept for the last chunk.
pub open spec fn sealed_next(stream: StreamModel, plain: Seq<u8>) -> Option<Seq<u8>> {
    if stream.position == u32::MAX {
        None
    } else {
        sealed(stream.key, stream.nonce, stream.position, false, plain)
    }
}

/// The chunk that a decryptor in state `stream` makes of `chunk` when
/// more chunks follow.
pub open spec fn opened_next(stream: StreamModel, chunk: Seq<u8>) -> Option<Seq<u8>> {
    if stream.position == u32::MAX {
        None
    } else {
        opened(stream.key, stream.nonce, stream.position, false, chunk)
    }
}

/// The state after a chunk that was not the last.
pub open spec fn advanced(stream: StreamModel) -> StreamModel {
    StreamModel { position: (stream.position + 1) as u32, ..stream }
}

/// The sealed form of a payload from `stream` on: its chunks of
/// `CHUNK_LENGTH` bytes, each sealed in its turn, and then what is left of
/// it, sealed as the last chunk. What is left may be nothing.
pub open spec fn sealed_payload(stream: StreamModel, plain: Seq<u8>) -> Option<Seq<u8>>
    decreases plain.len(),
{
    if plain.len() < CHUNK_LENGTH {
        sealed(stream.key, stream.nonce, stream.position, true, plain)
    } else {
        match (
            sealed_next(stream, plain.take(CHUNK_LENGTH as int)),
            sealed_payload(advanced(stream), plain.skip(CHUNK_LENGTH as int)),
        ) {
            (Some(chunk), Some(rest)) => Some(chunk + rest),
            _ => None,
        }
    }
}

/// The payload that a sealed payload holds: its chunks of `CHUNK_LENGTH`
/// and `TAG_LENGTH` bytes, each opened in its turn, and then what is left
/// of it, opened as the last chunk.
pub open spec fn opened_payload(stream: StreamModel, cipher: Seq<u8>) -> Option<Seq<u8>>
    decreases cipher.len(),
{
    if cipher.len() < CHUNK_LENGTH + TAG_LENGTH {
        opened(stream.key, stream.nonce, stream.position, true, cipher)
    } else {
        match (
            opened_next(stream, cipher.take((CHUNK_LENGTH + TAG_LENGTH) as int)),
            opened_payload(advanced(stream), cipher.skip((CHUNK_LENGTH + TAG_LENGTH) as int)),
        ) {
            (Some(chunk), Some(rest)) => Some(chunk + rest),
            _ => None,
        }
    }
}

/// How long the sealed form of a payload of `length` bytes is: every
/// chunk grows by a tag, and there is always a last chunk.
pub open spec fn sealed_length(length: nat) -> nat {
    length + TAG_LENGTH as nat * (length / CHUNK_LENGTH as nat + 1)
}

/// The start of a stream under `key` and `nonce`.
pub open spec fn stream_start(key: Seq<u8>, nonce: Seq<u8>) -> StreamModel {
    StreamModel { key, nonce, position: 0 }
}

/// Whether the cipher under `key` and `nonce` opens what it has sealed.
pub open spec fn cipher_round_trips(key: Seq<u8>, nonce: Seq<u8>) -> bool {
    forall|position: u32, last: bool, plain: Seq<u8>|
        (#[trigger] sealed(key, nonce, position, last, plain)) matches Some(s) ==> opened(
            key,
            nonce,
            position,
            last,
            s,
        ) == Some(plain)
}

/// An encryptor of one payload: it seals the chunks in their order and
/// counts them.
pub struct Encryptor {
    key: Vec<u8>,
    nonce: Vec<u8>,
    position: u32,
}

/// A decryptor of one payload: it opens the chunks in their order and
/// counts them.
pub struct Decryptor {
    key: Vec<u8>,
    nonce: Vec<u8>,
    position: u32,
}

impl View for Encryptor {
    type V = StreamModel;

    closed spec fn view(&self) -> StreamModel {
        StreamModel { key: self.key@, nonce: self.nonce@, position: self.position }
    }
}

impl View for Decryptor {
    type V = StreamModel;

    closed spec fn view(&self) -> StreamModel {
        StreamModel { key: self.key@, nonce: self.nonce@, position: self.position }
    }
}

/// What an encryptor returns for the cipher's outcome `chunk`.
pub open spec fn seal_outcome(chunk: Option<Seq<u8>>) -> Result<Seq<u8>, Failure> {
    match chunk {
        Some(c) => Ok(c),
        None => Err(Failure::EncryptionFailed),
    }
}

/// What a decryptor returns for the cipher's outcome `chunk`.
pub open spec fn open_outcome(chunk: Option<Seq<u8>>) -> Result<Seq<u8>, Failure> {
    match chunk {
        Some(c) => Ok(c),
        None => Err(Failure::DecryptionFailed),
    }
}

/// What the derivation of a key returns for the outcome `key` of Argon2:
/// a key of the cipher's length, or a failure.
pub open spec fn derive_outcome(key: Option<Seq<u8>>) -> Result<Seq<u8>, Failure> {
    match key {
        Some(k) => if k.len() == KEY_LENGTH {
            Ok(k)
        } else {
            Err(Failure::KeyDerivationFailed)
        },
        None => Err(Failure::KeyDerivationFailed),
    }
}

/// Turns the outcome of Argon2 into a key or a failure.
pub fn derived_or_error(key: Option<Vec<u8>>) -> (result: Result<Vec<u8>, ArchiveError>)
    ensures
        result_view(result) == derive_outcome(bytes_view(key)),
{
    match key {
        Some(k) => if k.len() == KEY_LENGTH {
            Ok(k)
        } else {
            Err(ArchiveError::KeyDerivationFailed)
        },
        None => Err(ArchiveError::KeyDerivationFailed),
    }
}

/// Turns the cipher's outcome into the result of an encryptor.
pub fn sealed_or_error(chunk: Option<Vec<u8>>) -> (result: Result<Vec<u8>, ArchiveError>)
    ensures
        result_view(result) == seal_outcome(bytes_view(chunk)),
{
    match chunk {
        Some(c) => Ok(c),
        None => Err(ArchiveError::EncryptionFailed),
    }
}

/// Turns the cipher's outcome into the result of a decryptor.
pub fn opened_or_error(chunk: Option<Vec<u8>>) -> (result: Result<Vec<u8>, ArchiveError>)
    ensures
        result_view(result) == open_outcome(bytes_view(chunk)),
{
    match chunk {
        Some(c) => Ok(c),
        None => Err(ArchiveError::DecryptionFailed),
    }
}

impl Encryptor {
    #[verifier::type_invariant]
    spec fn well_formed(self) -> bool {
        self.key@.len() == KEY_LENGTH && self.nonce@.len() == NONCE_LENGTH
    }

    /// Seals a chunk that is not the last, and moves on by one position.
    /// Where the chunk is refused, the encryptor stays where it is.
    pub fn encrypt_next(&mut self, plain: &[u8]) -> (result: Result<Vec<u8>, ArchiveError>)
        ensures
            result_view(result) == seal_outcome(sealed_next(old(self)@, plain@)),
            result is Ok ==> final(self)@ == advanced(old(self)@),
            result is Err ==> final(self)@ == old(self)@,
    {
        proof {
            use_type_invariant(&*self);
        }
        if self.position == u32::MAX {
            return Err(ArchiveError::EncryptionFailed);
        }
        let chunk = seal_chunk(
            self.key.as_slice(),
            self.nonce.as_slice(),
            self.position,
            false,
            plain,
        );
        let result = sealed_or_error(chunk);
        if result.is_ok() {
            self.position = self.position + 1;
        }
        result
    }

    /// Seals the last chunk, which ends the stream.
    pub fn encrypt_last(self, plain: &[u8]) -> (result: Result<Vec<u8>, ArchiveError>)
        ensures
            result_view(result) == seal_outcome(
                sealed(self@.key, self@.nonce, self@.position, true, plain@),
            ),
    {
        proof {
            use_type_invariant(&self);
        }
        let chunk = seal_chunk(
            self.key.as_slice(),
            self.nonce.as_slice(),
            self.position,
            true,
            plain,
        );
        sealed_or_error(chunk)
    }
}

impl Decryptor {
    #[verifier::type_invariant]
    spec fn well_formed(self) -> bool {
        self.key@.len() == KEY_LENGTH && self.nonce@.len() == NONCE_LENGTH
    }

    /// Opens a chunk that is not the last, and moves on by one position.
    /// Where the chunk is refused, the decryptor stays where it is.
    pub fn decrypt_next(&mut self, chunk: &[u8]) -> (result: Result<Vec<u8>, ArchiveError>)
        ensures
            result_view(result) == open_outcome(opened_next(old(self)@, chunk@)),
            result is Ok ==> final(self)@ == advanced(old(self)@),
            result is Err ==> final(self)@ == old(self)@,
    {
        proof {
            use_type_invariant(&*self);
        }
        if self.position == u32::MAX {
            return Err(ArchiveError::DecryptionFailed);
        }
        let plain = open_chunk(
            self.key.as_slice(),
            self.nonce.as_slice(),
            self.position,
            false,
            chunk,
        );
        let result = opened_or_error(plain);
        if result.is_ok() {
            self.position = self.position + 1;
        }
        result
    }

    /// Opens the last chunk, which ends the stream. A chunk that was not
    /// sealed as the last one at this position is refused.
    pub fn decrypt_last(self, chunk: &[u8]) -> (result: Result<Vec<u8>, ArchiveError>)
        ensures
            result_view(result) == open_outcome(
                opened(self@.key, self@.nonce, self@.position, true, chunk@),
            ),
    {
        proof {
            use_type_invariant(&self);
        }
        let plain = open_chunk(
            self.key.as_slice(),
            self.nonce.as_slice(),
            self.position,
            true,
            chunk,
        );
        opened_or_error(plain)
    }
}

/// An encryptor at the start of a stream.
pub fn make_encryptor(key: &[u8], nonce: &[u8]) -> (encryptor: Encryptor)
    requires
        key@.len() == KEY_LENGTH,
        nonce@.len() == NONCE_LENGTH,
    ensures
        encryptor@ == stream_start(key@, nonce@),
{
    Encryptor {
        key: vstd::slice::slice_to_vec(key),
        nonce: vstd::slice::slice_to_vec(nonce),
        position: 0,
    }
}

/// A decryptor at the start of a stream.
pub fn make_decryptor(key: &[u8], nonce: &[u8]) -> (decryptor: Decryptor)
    requires
        key@.len() == KEY_LENGTH,
        nonce@.len() == NONCE_LENGTH,
    ensures
        decryptor@ == stream_start(key@, nonce@),
{
    Decryptor {
        key: vstd::slice::slice_to_vec(key),
        nonce: vstd::slice::slice_to_vec(nonce),
        position: 0,
    }
}

/// The key for `password` and the salt of an archive. `None` where Argon2
/// refuses the inputs.
pub fn make_key_from_password_and_salt(password: &str, salt: &[u8]) -> (key: Option<Vec<u8>>)
    ensures
        bytes_view(key) == argon2_key(password.spec_bytes(), salt@),
        key matches Some(k) ==> k@.len() == KEY_LENGTH,
        key.is_some() == argon2_accepts(password.spec_bytes(), salt@),
{
    argon2_hash(password.as_bytes(), salt)
}

/// A fresh salt and the key for `password` under it. It fails where no
/// salt can be drawn, and where Argon2 refuses the password, which it
/// does for one of more than `u32::MAX` bytes.
pub fn make_new_key_from_password(password: &str) -> (made: Result<
    (Vec<u8>, [u8; SALT_LENGTH]),
    ArchiveError,
>)
    ensures
        match made {
            Ok((key, salt)) => argon2_key(password.spec_bytes(), salt@) == Some(key@)
                && key@.len() == KEY_LENGTH && salt@.len() == SALT_LENGTH,
            Err(e) => e@ == Failure::NoRandomBytes || (e@ == Failure::KeyDerivationFailed
                && password.spec_bytes().len() > u32::MAX),
        },
{
    let salt = match make_salt() {
        Some(salt) => salt,
        None => {
            return Err(ArchiveError::NoRandomBytes);
        },
    };
    match make_key_from_password_and_salt(password, salt.as_slice()) {
        Some(key) => Ok((key, salt)),
        None => Err(ArchiveError::KeyDerivationFailed),
    }
}

/// The sealed form of a payload is as long as `sealed_length` says: also
/// a payload that is a multiple of the chunk length ends with a last
/// chunk, which holds a tag and nothing else.
pub proof fn lemma_sealed_payload_length(stream: StreamModel, plain: Seq<u8>)
    ensures
        sealed_payload(stream, plain) matches Some(cipher) ==> cipher.len() == sealed_length(
            plain.len(),
        ),
    decreases plain.len(),
{
    if plain.len() >= CHUNK_LENGTH {
        lemma_sealed_payload_length(advanced(stream), plain.skip(CHUNK_LENGTH as int));
    }
}

/// Every sealed payload ends with a chunk that was sealed as the last one
/// of the stream. That chunk holds what is left of the payload behind its
/// whole chunks, which is nothing where the payload is a multiple of the
/// chunk length: then it is a tag alone.
pub proof fn lemma_sealed_payload_ends_with_last_chunk(stream: StreamModel, plain: Seq<u8>)
    requires
        sealed_payload(stream, plain) is Some,
    ensures
        ({
            let chunks = plain.len() / CHUNK_LENGTH as nat;
            let left = plain.skip((chunks * CHUNK_LENGTH) as int);
            let cipher = sealed_payload(stream, plain)->0;
            let last = sealed(
                stream.key,
                stream.nonce,
                (stream.position + chunks) as u32,
                true,
                left,
            );
            &&& stream.position + chunks <= u32::MAX
            &&& left.len() == plain.len() % CHUNK_LENGTH as nat
            &&& last is Some
            &&& last->0.len() == left.len() + TAG_LENGTH
            &&& cipher.len() >= last->0.len()
            &&& cipher.skip(cipher.len() - last->0.len()) == last->0
        }),
    decreases plain.len(),
{
    let chunks = plain.len() / CHUNK_LENGTH as nat;
    let left = plain.skip((chunks * CHUNK_LENGTH) as int);
    let cipher = sealed_payload(stream, plain)->0;
    if plain.len() < CHUNK_LENGTH {
        assert(left =~= plain);
        assert(cipher.skip(0) =~= cipher);
    } else {
        let tail = plain.skip(CHUNK_LENGTH as int);
        let chunk = sealed_next(stream, plain.take(CHUNK_LENGTH as int))->0;
        let rest = sealed_payload(advanced(stream), tail)->0;
        lemma_sealed_payload_ends_with_last_chunk(advanced(stream), tail);
        let fewer = tail.len() / CHUNK_LENGTH as nat;
        assert(fewer + 1 == chunks);
        assert(tail.skip((fewer * CHUNK_LENGTH) as int) =~= left);
        let last = sealed(
            stream.key,
            stream.nonce,
            (stream.position + chunks) as u32,
            true,
            left,
        )->0;
        assert(cipher.skip(cipher.len() - last.len()) =~= rest.skip(rest.len() - last.len()));
    }
}

/// An opened payload is shorter than its sealed form by the tags: where a
/// payload of `length` bytes is announced, `sealed_length(length)` bytes
/// hold it.
pub proof fn lemma_opened_payload_length(stream: StreamModel, cipher: Seq<u8>, length: nat)
    requires
        cipher.len() == sealed_length(length),
    ensures
        opened_payload(stream, cipher) matches Some(plain) ==> plain.len() == length,
    decreases cipher.len(),
{
    if cipher.len() >= CHUNK_LENGTH + TAG_LENGTH {
        lemma_opened_payload_length(
            advanced(stream),
            cipher.skip((CHUNK_LENGTH + TAG_LENGTH) as int),
            (length - CHUNK_LENGTH) as nat,
        );
    }
}

/// The reader cuts a sealed payload where the writer did, and so gets
/// the payload back if the cipher opens what it has sealed. This holds of
/// every length, a multiple of the chunk length or not.
pub proof fn lemma_payload_round_trip(stream: StreamModel, plain: Seq<u8>)
    requires
        cipher_round_trips(stream.key, stream.nonce),
    ensures
        sealed_payload(stream, plain) matches Some(cipher) ==> opened_payload(stream, cipher)
            == Some(plain),
    decreases plain.len(),
{
    if plain.len() >= CHUNK_LENGTH {
        let head = plain.take(CHUNK_LENGTH as int);
        let tail = plain.skip(CHUNK_LENGTH as int);
        lemma_payload_round_trip(advanced(stream), tail);
        if sealed_payload(stream, plain) is Some {
            let cipher = sealed_payload(stream, plain)->0;
            let chunk = sealed_next(stream, head)->0;
            let rest = sealed_payload(advanced(stream), tail)->0;
            assert(cipher.take((CHUNK_LENGTH + TAG_LENGTH) as int) =~= chunk);
            assert(cipher.skip((CHUNK_LENGTH + TAG_LENGTH) as int) =~= rest);
        }
    }
}

} // verus!
