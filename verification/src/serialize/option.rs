//! What the caller asks of the writer and the reader.

use vstd::prelude::*;

verus! {

/// The options of a writer or a reader: whether the archive is encrypted,
/// and with which password, and whether its entries are compressed.
///
/// A reader must be given the options that the archive was written with.
#[derive(Clone, Debug)]
pub struct SerializeOption {
    encrypt: bool,
    compress: bool,
    password: Option<String>,
}

/// What a `SerializeOption` holds.
pub struct OptionModel {
    pub encrypt: bool,
    pub compress: bool,
    pub password: Option<Seq<char>>,
}

/// The options that ask for nothing: no encryption, no compression, no
/// password.
pub open spec fn plain_options() -> OptionModel {
    OptionModel { encrypt: false, compress: false, password: None }
}

impl View for SerializeOption {
    type V = OptionModel;

    closed spec fn view(&self) -> OptionModel {
        OptionModel {
            encrypt: self.encrypt,
            compress: self.compress,
            password: match self.password {
                Some(p) => Some(p@),
                None => None,
            },
        }
    }
}

impl Default for SerializeOption {
    fn default() -> (option: Self)
        ensures
            option@ == plain_options(),
    {
        SerializeOption { encrypt: false, compress: false, password: None }
    }
}

impl SerializeOption {
    /// Options that ask for nothing.
    pub fn new() -> (option: Self)
        ensures
            option@ == plain_options(),
    {
        SerializeOption { encrypt: false, compress: false, password: None }
    }

    /// Asks for encryption under `password`.
    pub fn to_encrypt(self, password: &str) -> (option: Self)
        ensures
            option@ == (OptionModel { encrypt: true, password: Some(password@), ..self@ }),
    {
        SerializeOption {
            encrypt: true,
            compress: self.compress,
            password: Some(password.to_owned()),
        }
    }

    /// Asks for compression, or not.
    pub fn to_compress(self, compress: bool) -> (option: Self)
        ensures
            option@ == (OptionModel { compress, ..self@ }),
    {
        SerializeOption { encrypt: self.encrypt, compress, password: self.password }
    }

    /// Whether encryption is asked for.
    pub fn is_encrypted(&self) -> (encrypt: bool)
        ensures
            encrypt == self@.encrypt,
    {
        self.encrypt
    }

    /// Whether compression is asked for.
    pub fn is_compressed(&self) -> (compress: bool)
        ensures
            compress == self@.compress,
    {
        self.compress
    }

    /// The password, where one was given.
    pub fn password(&self) -> (password: Option<String>)
        ensures
            match (password, self@.password) {
                (Some(p), Some(q)) => p@ == q,
                (None, None) => true,
                _ => false,
            },
    {
        match &self.password {
            Some(p) => Some(p.clone()),
            None => None,
        }
    }
}

} // verus!
