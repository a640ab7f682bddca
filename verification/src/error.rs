//! Core validation errors.

use vstd::prelude::*;

use crate::canonical::{owned, push_str};
use crate::cli::{debug_quoted, debug_text};

verus! {

/// An invariant violation in a runtime-agnostic value.
#[derive(Debug, Clone, PartialEq, Eq)]
pub enum CoreError {
    /// A textual value is malformed or non-canonical.
    InvalidText {
        /// The logical value kind.
        kind: &'static str,
        /// The rejected input.
        value: String,
        /// A stable explanation suitable for diagnostics.
        reason: &'static str,
    },
    /// A numeric value is invalid.
    InvalidNumber {
        /// The logical value kind.
        kind: &'static str,
        /// A stable explanation suitable for diagnostics.
        reason: &'static str,
    },
    /// Values belong to incompatible coordinate systems or units.
    IncompatibleGeometry(&'static str),
    /// Checked arithmetic overflowed or underflowed.
    ArithmeticOverflow {
        /// The quantity kind.
        kind: &'static str,
    },
    /// Reading an input failed.
    Io(String),
}

impl CoreError {
    /// True when this is an `InvalidText` error of the given kind about the given input.
    pub open spec fn is_invalid_text(self, kind: Seq<char>, value: Seq<char>) -> bool {
        &&& self is InvalidText
        &&& self->InvalidText_kind@ == kind
        &&& self->InvalidText_value@ == value
    }

    /// The diagnostic text of the error.
    pub open spec fn text(self) -> Seq<char> {
        match self {
            CoreError::InvalidText { kind, value, reason } => "invalid "@ + kind@ + ": "@
                + debug_text(value@) + " ("@ + reason@ + ")"@,
            CoreError::InvalidNumber { kind, reason } => "invalid "@ + kind@ + ": "@ + reason@,
            CoreError::IncompatibleGeometry(m) => "incompatible geometry: "@ + m@,
            CoreError::ArithmeticOverflow { kind } => kind@ + " arithmetic overflow"@,
            CoreError::Io(m) => "I/O error: "@ + m@,
        }
    }

    /// Renders the diagnostic text: the kind and the quoted input with its reason, the
    /// kind and reason of a bad number, the geometry mismatch, the overflowing quantity,
    /// or the I/O failure.
    pub fn to_string(&self) -> (s: String)
        ensures
            s@ == self.text(),
    {
        match self {
            CoreError::InvalidText { kind, value, reason } => {
                let mut s = owned("invalid ");
                push_str(&mut s, kind);
                push_str(&mut s, ": ");
                let quoted = debug_quoted(value.as_str());
                push_str(&mut s, quoted.as_str());
                push_str(&mut s, " (");
                push_str(&mut s, reason);
                push_str(&mut s, ")");
                s
            },
            CoreError::InvalidNumber { kind, reason } => {
                let mut s = owned("invalid ");
                push_str(&mut s, kind);
                push_str(&mut s, ": ");
                push_str(&mut s, reason);
                s
            },
            CoreError::IncompatibleGeometry(m) => {
                let mut s = owned("incompatible geometry: ");
                push_str(&mut s, m);
                s
            },
            CoreError::ArithmeticOverflow { kind } => {
                let mut s = owned(kind);
                push_str(&mut s, " arithmetic overflow");
                s
            },
            CoreError::Io(m) => {
                let mut s = owned("I/O error: ");
                push_str(&mut s, m.as_str());
                s
            },
        }
    }

    /// True when this is an overflow error of the given kind.
    pub open spec fn is_overflow(self, kind: Seq<char>) -> bool {
        &&& self is ArithmeticOverflow
        &&& self->ArithmeticOverflow_kind@ == kind
    }
}

/// Builds an `InvalidText` error.
pub fn invalid_text(kind: &'static str, value: String, reason: &'static str) -> (e: CoreError)
    ensures
        e == (CoreError::InvalidText { kind, value, reason }),
{
    CoreError::InvalidText { kind, value, reason }
}

} // verus!
