//! Persistent schema versioning.

use vstd::prelude::*;

verus! {

/// A semantic schema version. Major changes require migration; minor additions are compatible.
#[derive(Debug, Clone, Copy, PartialEq, Eq, PartialOrd, Ord, Hash)]
pub struct SchemaVersion {
    /// Compatibility-breaking version.
    pub major: u16,
    /// Backward-compatible additive version.
    pub minor: u16,
}

/// Major component of the schema version used by the current persistent formats.
pub const CURRENT_SCHEMA_MAJOR: u16 = 1;
/// Minor component of the schema version used by the current persistent formats.
pub const CURRENT_SCHEMA_MINOR: u16 = 0;

/// Schema version used by the current persistent formats.
pub open spec fn current_schema_spec() -> SchemaVersion {
    SchemaVersion { major: CURRENT_SCHEMA_MAJOR, minor: CURRENT_SCHEMA_MINOR }
}

/// Returns the schema version used by the current persistent formats.
pub fn current_schema_version() -> (v: SchemaVersion)
    ensures
        v == current_schema_spec(),
{
    SchemaVersion { major: CURRENT_SCHEMA_MAJOR, minor: CURRENT_SCHEMA_MINOR }
}

/// Compatibility result for a persistent schema.
#[derive(Debug, Clone, Copy, PartialEq, Eq)]
pub enum Compatibility {
    /// The document can be consumed directly.
    Compatible,
    /// The major version matches, but the producer may have added unknown fields.
    NewerMinor,
    /// A migration or a different reader is required.
    IncompatibleMajor,
}

/// What a reader supporting `reader` makes of a document written with `found`.
pub open spec fn compatibility_spec(reader: SchemaVersion, found: SchemaVersion) -> Compatibility {
    if reader.major != found.major {
        Compatibility::IncompatibleMajor
    } else if found.minor > reader.minor {
        Compatibility::NewerMinor
    } else {
        Compatibility::Compatible
    }
}

impl SchemaVersion {
    /// Creates a version.
    pub fn new(major: u16, minor: u16) -> (v: Self)
        ensures
            v.major == major,
            v.minor == minor,
    {
        SchemaVersion { major, minor }
    }

    /// Checks whether a reader supporting `self` can consume `found`.
    pub fn compatibility_with(self, found: Self) -> (c: Compatibility)
        ensures
            c == compatibility_spec(self, found),
    {
        if self.major != found.major {
            Compatibility::IncompatibleMajor
        } else if found.minor > self.minor {
            Compatibility::NewerMinor
        } else {
            Compatibility::Compatible
        }
    }
}

/// A reader always accepts documents written with its own version.
pub proof fn lemma_own_version_is_compatible(v: SchemaVersion)
    ensures
        compatibility_spec(v, v) == Compatibility::Compatible,
{
}

} // verus!
