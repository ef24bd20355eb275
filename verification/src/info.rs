//! The system-info record kept at the storage root, and the semantic
//! version comparison the engine runs at boot to decide whether the stored
//! version is current, older, or newer than its own.

use crate::encoding::{dec_str, fnv1a64, fnv1a64_of, u64_to_dec_string};
use vstd::prelude::*;
use vstd::string::StringSliceAdditionalSpecFns;

verus! {

/// The version string the engine reports; it matches the crate's own.
pub fn version() -> (r: String)
    ensures
        r@ == "0.1.0"@,
{
    "0.1.0".to_owned()
}

/// The version part of the system-info record.
#[derive(Debug)]
pub struct Version {
    pub version: String,
    pub hash: String,
}

/// One applied migration of the system-info record.
#[derive(Debug)]
pub struct Migration {
    pub id: u32,
    pub name: String,
    pub hash: String,
    pub applied_at: u64,
}

/// What the system-info file records: the running version and the applied
/// migrations.
#[derive(Debug)]
pub struct SystemInfo {
    pub version: Version,
    pub migrations: Vec<Migration>,
}

impl Default for SystemInfo {
    /// An empty record: no version seen, no migrations.
    fn default() -> (r: Self)
        ensures
            r.version.version@ == Seq::<char>::empty(),
            r.version.hash@ == Seq::<char>::empty(),
            r.migrations@.len() == 0,
    {
        SystemInfo {
            version: Version { version: String::new(), hash: String::new() },
            migrations: Vec::new(),
        }
    }
}

impl SystemInfo {
    /// Records a new running version: the version string is replaced and
    /// the hash is rolled forward — the decimal rendering of the digest of
    /// the previous hash's UTF-8 bytes.
    pub fn update_version(&mut self, version: &str)
        ensures
            final(self).version.version@ == version@,
            final(self).version.hash@ == dec_str(
                fnv1a64_of(vstd::utf8::encode_utf8(old(self).version.hash@)) as nat,
            ),
            final(self).migrations@ == old(self).migrations@,
    {
        self.version.version = version.to_owned();
        let prev = fnv1a64(self.version.hash.as_str().as_bytes());
        self.version.hash = u64_to_dec_string(prev);
    }
}

/// A semantic version: major, minor, patch.
#[derive(Clone, Copy, Debug, PartialEq, Eq, Structural)]
pub struct SemanticVersion {
    pub major: u32,
    pub minor: u32,
    pub patch: u32,
}

impl SemanticVersion {
    /// A version from its three parts.
    pub fn new(major: u32, minor: u32, patch: u32) -> (r: SemanticVersion)
        ensures
            r == (SemanticVersion { major, minor, patch }),
    {
        SemanticVersion { major, minor, patch }
    }

    /// Whether two versions are the same in every part.
    pub fn is_equal_to(&self, other: &SemanticVersion) -> (r: bool)
        ensures
            r == (self.major == other.major && self.minor == other.minor && self.patch
                == other.patch),
    {
        self.major == other.major && self.minor == other.minor && self.patch == other.patch
    }

    /// Whether this version is strictly newer, by major, then minor, then
    /// patch.
    pub fn is_greater_than(&self, other: &SemanticVersion) -> (r: bool)
        ensures
            r == (self.major > other.major || (self.major == other.major && self.minor
                > other.minor) || (self.major == other.major && self.minor == other.minor
                && self.patch > other.patch)),
    {
        if self.major > other.major {
            return true;
        }
        if self.major < other.major {
            return false;
        }
        if self.minor > other.minor {
            return true;
        }
        if self.minor < other.minor {
            return false;
        }
        if self.patch > other.patch {
            return true;
        }
        if self.patch < other.patch {
            return false;
        }
        false
    }
}

} // verus!
