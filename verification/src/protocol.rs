//! Versioned process-protocol schema types without process I/O.

use vstd::prelude::*;

use crate::engine::EngineDescriptor;

verus! {

/// Fixed bytes preceding every protocol stream: ASCII `FERRODOC`.
pub const PREAMBLE: [u8; 8] = [70, 69, 82, 82, 79, 68, 79, 67];

/// Maximum encoded frame payload accepted by v1 hosts and engines (16 MiB).
pub const MAX_FRAME_LENGTH: u32 = 16777216;

/// Integer wire-protocol version.
#[derive(Debug, Clone, Copy, PartialEq, Eq, PartialOrd, Ord, Hash, Structural)]
pub struct ProtocolVersion(pub u16);

/// Returns the current process-protocol version.
pub fn current_protocol_version() -> (v: ProtocolVersion)
    ensures
        v.0 == 1,
{
    ProtocolVersion(1)
}

/// Inclusive supported protocol range.
#[derive(Debug, Clone, Copy, PartialEq, Eq)]
pub struct VersionRange {
    /// Oldest supported version.
    pub minimum: ProtocolVersion,
    /// Newest supported version.
    pub maximum: ProtocolVersion,
}

/// The newest version both ranges support, if their overlap is nonempty.
pub open spec fn negotiate_spec(a: VersionRange, b: VersionRange) -> Option<u16> {
    let low = if a.minimum.0 >= b.minimum.0 {
        a.minimum.0
    } else {
        b.minimum.0
    };
    let high = if a.maximum.0 <= b.maximum.0 {
        a.maximum.0
    } else {
        b.maximum.0
    };
    if low <= high {
        Some(high)
    } else {
        None
    }
}

impl VersionRange {
    /// Selects the newest mutually supported version.
    pub fn negotiate(self, peer: Self) -> (r: Option<ProtocolVersion>)
        ensures
            match negotiate_spec(self, peer) {
                Some(v) => r == Some(ProtocolVersion(v)),
                None => r is None,
            },
    {
        let minimum = if self.minimum.0 >= peer.minimum.0 {
            self.minimum.0
        } else {
            peer.minimum.0
        };
        let maximum = if self.maximum.0 <= peer.maximum.0 {
            self.maximum.0
        } else {
            peer.maximum.0
        };
        if minimum <= maximum {
            Some(ProtocolVersion(maximum))
        } else {
            None
        }
    }
}

/// True when `w` lies in the range.
pub open spec fn in_range(r: VersionRange, w: u16) -> bool {
    r.minimum.0 <= w <= r.maximum.0
}

/// Negotiation is symmetric, and a selected version lies in both ranges and is the newest
/// version that does.
pub proof fn lemma_negotiation(a: VersionRange, b: VersionRange)
    ensures
        negotiate_spec(a, b) == negotiate_spec(b, a),
        negotiate_spec(a, b) matches Some(v) ==> a.minimum.0 <= v <= a.maximum.0 && b.minimum.0
            <= v <= b.maximum.0,
        negotiate_spec(a, b) matches Some(v) ==> forall|w: u16|
            #[trigger] in_range(a, w) && in_range(b, w) ==> w <= v,
        negotiate_spec(a, b) is None ==> forall|w: u16|
            !(#[trigger] in_range(a, w) && in_range(b, w)),
{
}

/// Client negotiation preface following the fixed preamble.
#[derive(Debug, Clone, PartialEq, Eq)]
pub struct ClientHello {
    /// Host-supported versions.
    pub versions: VersionRange,
    /// Host maximum inbound frame size.
    pub maximum_frame_length: u32,
}

/// Engine negotiation response.
#[derive(Debug, Clone, PartialEq, Eq)]
pub struct ServerHello {
    /// Selected mutually supported version.
    pub version: ProtocolVersion,
    /// Engine maximum inbound frame size.
    pub maximum_frame_length: u32,
    /// Engine descriptor available before other requests.
    pub descriptor: EngineDescriptor,
}

} // verus!
