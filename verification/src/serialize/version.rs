//! The format version that an archive carries in its header.
//!
//! A marker byte and three bytes store it: major, minor and patch. A
//! reader opens an archive whose major version is its own and whose minor
//! version is not above its own.

use crate::error::{ArchiveError, Failure};
use std::cmp::Ordering;
use vstd::prelude::*;
use vstd::std_specs::cmp::PartialOrdSpecImpl;
use vstd::string::StringExecFns;

verus! {

/// Major version of this implementation.
pub const MAJOR_VERSION: u8 = 1;

/// Minor version of this implementation.
pub const MINOR_VERSION: u8 = 2;

/// Patch version of this implementation.
pub const PATCH_VERSION: u8 = 0;

/// The major version that this implementation writes and reads.
pub fn get_major_version() -> (major: u8)
    ensures
        major == MAJOR_VERSION,
{
    MAJOR_VERSION
}

/// The minor version that this implementation writes.
pub fn get_minor_version() -> (minor: u8)
    ensures
        minor == MINOR_VERSION,
{
    MINOR_VERSION
}

/// The patch version that this implementation writes.
pub fn get_patch_version() -> (patch: u8)
    ensures
        patch == PATCH_VERSION,
{
    PATCH_VERSION
}

/// How a reader stands to the version of an archive.
#[derive(Clone, Copy, Debug, PartialEq, Eq, Structural)]
pub enum Compatibility {
    /// The archive can be read.
    Compatible,
    /// The archive's major version is below the reader's.
    TooOld,
    /// The archive's major version is above the reader's.
    TooNew,
    /// The major versions agree, but the archive's minor version is above
    /// the reader's.
    MinorTooNew,
}

/// A major, minor and patch version. Versions are ordered by their major
/// version, then by their minor version, then by their patch version.
#[derive(Clone, Copy, Debug, PartialEq, Eq, Ord, Structural)]
pub struct Version {
    major: u8,
    minor: u8,
    patch: u8,
}

impl View for Version {
    type V = (u8, u8, u8);

    closed spec fn view(&self) -> (u8, u8, u8) {
        (self.major, self.minor, self.patch)
    }
}

/// How the version `a` stands to the version `b`: the first of major,
/// minor and patch in which they differ decides.
pub open spec fn version_order(a: (u8, u8, u8), b: (u8, u8, u8)) -> Ordering {
    if a.0 < b.0 {
        Ordering::Less
    } else if a.0 > b.0 {
        Ordering::Greater
    } else if a.1 < b.1 {
        Ordering::Less
    } else if a.1 > b.1 {
        Ordering::Greater
    } else if a.2 < b.2 {
        Ordering::Less
    } else if a.2 > b.2 {
        Ordering::Greater
    } else {
        Ordering::Equal
    }
}

impl PartialOrd for Version {
    fn partial_cmp(&self, other: &Self) -> (order: Option<Ordering>) {
        if self.major < other.major {
            Some(Ordering::Less)
        } else if self.major > other.major {
            Some(Ordering::Greater)
        } else if self.minor < other.minor {
            Some(Ordering::Less)
        } else if self.minor > other.minor {
            Some(Ordering::Greater)
        } else if self.patch < other.patch {
            Some(Ordering::Less)
        } else if self.patch > other.patch {
            Some(Ordering::Greater)
        } else {
            Some(Ordering::Equal)
        }
    }
}

impl PartialOrdSpecImpl for Version {
    open spec fn obeys_partial_cmp_spec() -> bool {
        true
    }

    open spec fn partial_cmp_spec(&self, other: &Version) -> Option<Ordering> {
        Some(version_order(self@, other@))
    }
}

/// Two versions of the same numbers are the same version.
pub proof fn lemma_equal_versions(a: Version, b: Version)
    requires
        a@ == b@,
    ensures
        a == b,
{
}

/// The order of versions is the order of their numbers, major before
/// minor before patch: it is total, and only a version of the same
/// numbers is equal.
pub proof fn lemma_version_order(a: (u8, u8, u8), b: (u8, u8, u8), c: (u8, u8, u8))
    ensures
        version_order(a, b) == Ordering::Equal <==> a == b,
        version_order(a, b) == Ordering::Less <==> version_order(b, a) == Ordering::Greater,
        version_order(a, b) == Ordering::Less && version_order(b, c) == Ordering::Less
            ==> version_order(a, c) == Ordering::Less,
{
}

/// The three bytes that store a version.
pub open spec fn version_bytes(version: (u8, u8, u8)) -> Seq<u8> {
    seq![version.0, version.1, version.2]
}

/// The version that three stored bytes hold.
pub open spec fn bytes_version(bytes: Seq<u8>) -> (u8, u8, u8) {
    (bytes[0], bytes[1], bytes[2])
}

/// The version of this implementation.
pub open spec fn current_version() -> (u8, u8, u8) {
    (MAJOR_VERSION, MINOR_VERSION, PATCH_VERSION)
}

/// The version gate: how a reader of version `reader` stands to an archive
/// of version `file`. The major versions must agree and the archive's minor
/// version must not exceed the reader's; the patch version is not looked at.
pub open spec fn compatibility(file: (u8, u8, u8), reader: (u8, u8, u8)) -> Compatibility {
    if file.0 < reader.0 {
        Compatibility::TooOld
    } else if file.0 > reader.0 {
        Compatibility::TooNew
    } else if file.1 > reader.1 {
        Compatibility::MinorTooNew
    } else {
        Compatibility::Compatible
    }
}

/// The error that the version gate raises for an archive of version `file`,
/// if it raises one.
pub open spec fn gate_error(file: (u8, u8, u8)) -> Option<Failure> {
    match compatibility(file, current_version()) {
        Compatibility::Compatible => None,
        Compatibility::TooOld => Some(Failure::FileTooOld { major: file.0 }),
        Compatibility::TooNew => Some(Failure::FileTooNew { major: file.0, minor: file.1 }),
        Compatibility::MinorTooNew => Some(Failure::MinorTooNew { major: file.0, minor: file.1 }),
    }
}

impl Version {
    /// Creates a version.
    pub fn new(major: u8, minor: u8, patch: u8) -> (version: Self)
        ensures
            version@ == (major, minor, patch),
    {
        Version { major, minor, patch }
    }

    /// The major version.
    pub fn major(&self) -> (major: u8)
        ensures
            major == self@.0,
    {
        self.major
    }

    /// The minor version.
    pub fn minor(&self) -> (minor: u8)
        ensures
            minor == self@.1,
    {
        self.minor
    }

    /// The patch version.
    pub fn patch(&self) -> (patch: u8)
        ensures
            patch == self@.2,
    {
        self.patch
    }

    /// Reads a version from its three stored bytes. Bytes after the third
    /// are not looked at; fewer than three are refused.
    pub fn from_bytes(bytes: &[u8]) -> (result: Result<Self, ArchiveError>)
        ensures
            bytes@.len() >= 3 ==> (result matches Ok(version) && version@ == bytes_version(
                bytes@,
            )),
            bytes@.len() < 3 ==> (result matches Err(e) && e@ == Failure::InvalidVersionBytes),
    {
        if bytes.len() < 3 {
            return Err(ArchiveError::InvalidVersionBytes);
        }
        Ok(Version { major: bytes[0], minor: bytes[1], patch: bytes[2] })
    }

    /// The three bytes that store this version.
    pub fn to_bytes(&self) -> (bytes: [u8; 3])
        ensures
            bytes@ == version_bytes(self@),
    {
        let bytes: [u8; 3] = [self.major, self.minor, self.patch];
        bytes
    }

    /// How this implementation stands to an archive of this version.
    pub fn check(&self) -> (verdict: Compatibility)
        ensures
            verdict == compatibility(self@, current_version()),
    {
        if self.major < MAJOR_VERSION {
            Compatibility::TooOld
        } else if self.major > MAJOR_VERSION {
            Compatibility::TooNew
        } else if self.minor > MINOR_VERSION {
            Compatibility::MinorTooNew
        } else {
            Compatibility::Compatible
        }
    }

    /// The version in its usual notation: `1.2.0` for example.
    pub fn to_string(&self) -> (text: String)
        ensures
            text@ == version_text(self@),
    {
        let mut text = String::new();
        append_decimal(&mut text, self.major);
        text.append(".");
        append_decimal(&mut text, self.minor);
        text.append(".");
        append_decimal(&mut text, self.patch);
        proof {
            reveal_strlit(".");
        }
        text
    }
}

impl Default for Version {
    /// The version of this implementation.
    fn default() -> (version: Self)
        ensures
            version@ == current_version(),
    {
        Version::new(get_major_version(), get_minor_version(), get_patch_version())
    }
}

/// The character of a decimal digit.
pub open spec fn digit_char(digit: u8) -> char {
    if digit == 0 {
        '0'
    } else if digit == 1 {
        '1'
    } else if digit == 2 {
        '2'
    } else if digit == 3 {
        '3'
    } else if digit == 4 {
        '4'
    } else if digit == 5 {
        '5'
    } else if digit == 6 {
        '6'
    } else if digit == 7 {
        '7'
    } else if digit == 8 {
        '8'
    } else {
        '9'
    }
}

/// A number in decimal digits, without leading zeros.
pub open spec fn decimal(n: u8) -> Seq<char> {
    if n < 10 {
        seq![digit_char(n)]
    } else if n < 100 {
        seq![digit_char(n / 10), digit_char(n % 10)]
    } else {
        seq![digit_char(n / 100), digit_char(n / 10 % 10), digit_char(n % 10)]
    }
}

/// A version in its usual notation: the three numbers in decimal digits,
/// with a dot between them.
pub open spec fn version_text(version: (u8, u8, u8)) -> Seq<char> {
    decimal(version.0) + seq!['.'] + decimal(version.1) + seq!['.'] + decimal(version.2)
}

/// The text of a decimal digit.
fn digit_text(digit: u8) -> (text: &'static str)
    requires
        digit < 10,
    ensures
        text@ == seq![digit_char(digit)],
{
    proof {
        reveal_strlit("0");
        reveal_strlit("1");
        reveal_strlit("2");
        reveal_strlit("3");
        reveal_strlit("4");
        reveal_strlit("5");
        reveal_strlit("6");
        reveal_strlit("7");
        reveal_strlit("8");
        reveal_strlit("9");
    }
    if digit == 0 {
        "0"
    } else if digit == 1 {
        "1"
    } else if digit == 2 {
        "2"
    } else if digit == 3 {
        "3"
    } else if digit == 4 {
        "4"
    } else if digit == 5 {
        "5"
    } else if digit == 6 {
        "6"
    } else if digit == 7 {
        "7"
    } else if digit == 8 {
        "8"
    } else {
        "9"
    }
}

/// Appends a number in decimal digits.
fn append_decimal(text: &mut String, n: u8)
    ensures
        final(text)@ == old(text)@ + decimal(n),
{
    if n >= 100 {
        text.append(digit_text(n / 100));
    }
    if n >= 10 {
        text.append(digit_text(n / 10 % 10));
    }
    text.append(digit_text(n % 10));
}

/// Reading the stored bytes of a version gives the version back.
pub proof fn lemma_version_round_trip(version: (u8, u8, u8))
    ensures
        version_bytes(version).len() == 3,
        bytes_version(version_bytes(version)) == version,
{
}

} // verus!
