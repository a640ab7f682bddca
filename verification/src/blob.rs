//! Host-scoped immutable blob references.

use vstd::prelude::*;

use crate::canonical::{owned, MediaType};
use crate::digest::Sha256Digest;
use crate::error::CoreError;
use crate::text::{chars_of, is_alphanumeric};

verus! {

/// A character allowed in blob tokens.
pub open spec fn blob_char(c: char) -> bool {
    is_alphanumeric(c) || c == '.' || c == '_' || c == '-'
}

/// 1-128 ASCII letters, digits, '.', '_', or '-'.
pub open spec fn valid_blob_id(s: Seq<char>) -> bool {
    &&& 1 <= s.len() <= 128
    &&& forall|i: int| 0 <= i < s.len() ==> #[trigger] blob_char(s[i])
}

/// An opaque host-issued blob capability token. It is never a filesystem path.
#[derive(Debug, PartialEq, Eq, PartialOrd, Ord, Hash)]
pub struct BlobId(String);

impl View for BlobId {
    type V = Seq<char>;

    closed spec fn view(&self) -> Seq<char> {
        self.0@
    }
}

impl Clone for BlobId {
    fn clone(&self) -> (r: Self)
        ensures
            r@ == self@,
    {
        proof {
            use_type_invariant(self);
        }
        BlobId(self.0.clone())
    }
}

impl BlobId {
    #[verifier::type_invariant]
    spec fn well_formed(self) -> bool {
        valid_blob_id(self.0@)
    }

    /// Creates a token from 1-128 safe ASCII identifier characters.
    pub fn new(input: &str) -> (r: Result<Self, CoreError>)
        ensures
            valid_blob_id(input@) ==> r is Ok && r->Ok_0@ == input@,
            !valid_blob_id(input@) ==> r is Err && r->Err_0.is_invalid_text("blob ID"@, input@)
                && r->Err_0->InvalidText_reason@
                == "expected 1-128 ASCII letters, digits, '.', '_', or '-'"@,
    {
        let v = chars_of(input);
        let mut ok = 1 <= v.len() && v.len() <= 128;
        let mut i: usize = 0;
        while ok && i < v.len()
            invariant
                i <= v@.len(),
                v@ == input@,
                ok ==> 1 <= v@.len() <= 128,
                ok ==> forall|j: int| 0 <= j < i ==> #[trigger] blob_char(v@[j]),
                !ok ==> !valid_blob_id(input@),
            decreases v@.len() - i,
        {
            let c = v[i];
            if !(('a' <= c && c <= 'z') || ('A' <= c && c <= 'Z') || ('0' <= c && c <= '9') || c
                == '.' || c == '_' || c == '-') {
                assert(!blob_char(v@[i as int]));
                ok = false;
            }
            i = i + 1;
        }
        if ok {
            Ok(BlobId(input.to_owned()))
        } else {
            Err(
                CoreError::InvalidText {
                    kind: "blob ID",
                    value: input.to_owned(),
                    reason: "expected 1-128 ASCII letters, digits, '.', '_', or '-'",
                },
            )
        }
    }

    /// Returns the opaque token.
    pub fn as_str(&self) -> (s: &str)
        ensures
            s@ == self@,
            valid_blob_id(s@),
    {
        proof {
            use_type_invariant(self);
        }
        self.0.as_str()
    }
}

impl std::str::FromStr for BlobId {
    type Err = CoreError;

    fn from_str(input: &str) -> (r: Result<Self, Self::Err>)
        ensures
            valid_blob_id(input@) ==> r is Ok && r->Ok_0@ == input@,
            !valid_blob_id(input@) ==> r is Err && r->Err_0.is_invalid_text("blob ID"@, input@)
                && r->Err_0->InvalidText_reason@
                == "expected 1-128 ASCII letters, digits, '.', '_', or '-'"@,
    {
        BlobId::new(input)
    }
}

/// A nonempty checked byte range inside a registered blob.
#[derive(Debug, Clone, Copy, PartialEq, Eq)]
pub struct BlobRange {
    offset: u64,
    len: u64,
}

impl View for BlobRange {
    type V = (u64, u64);

    closed spec fn view(&self) -> (u64, u64) {
        (self.offset, self.len)
    }
}

impl BlobRange {
    #[verifier::type_invariant]
    spec fn well_formed(self) -> bool {
        self.len > 0 && self.offset + self.len <= u64::MAX
    }

    /// Creates a nonempty range and rejects end overflow.
    pub fn new(offset: u64, len: u64) -> (r: Result<Self, CoreError>)
        ensures
            len > 0 && offset + len <= u64::MAX ==> r is Ok && r->Ok_0@ == (offset, len),
            len == 0 ==> r is Err && r->Err_0 is InvalidText && r->Err_0->InvalidText_kind@
                == "blob range"@,
            len > 0 && offset + len > u64::MAX ==> r is Err && r->Err_0.is_overflow(
                "blob range"@,
            ),
    {
        if len == 0 {
            return Err(
                CoreError::InvalidText {
                    kind: "blob range",
                    value: owned("0"),
                    reason: "length must be nonzero",
                },
            );
        }
        if offset > u64::MAX - len {
            return Err(CoreError::ArithmeticOverflow { kind: "blob range" });
        }
        Ok(BlobRange { offset, len })
    }

    /// Starting byte offset.
    pub fn offset(self) -> (o: u64)
        ensures
            o == self@.0,
    {
        self.offset
    }

    /// Number of bytes.
    pub fn len(self) -> (n: u64)
        ensures
            n == self@.1,
            n > 0,
    {
        proof {
            use_type_invariant(self);
        }
        self.len
    }

    /// Returns true only for the impossible zero-length state.
    pub fn is_empty(self) -> (r: bool)
        ensures
            r == (self@.1 == 0),
            !r,
    {
        proof {
            use_type_invariant(self);
        }
        self.len == 0
    }

    /// Exclusive end offset, which cannot overflow by construction.
    pub fn end(self) -> (e: u64)
        ensures
            e == self@.0 + self@.1,
    {
        proof {
            use_type_invariant(self);
        }
        self.offset + self.len
    }
}

/// An immutable blob capability passed to an engine.
#[derive(Debug, Clone, PartialEq, Eq)]
pub struct ScopedBlob {
    /// Host-issued opaque capability token.
    pub id: BlobId,
    /// Checked byte range within the registered blob.
    pub range: BlobRange,
    /// Content media type.
    pub media_type: MediaType,
    /// Optional digest the host must verify before resolution.
    pub expected_digest: Option<Sha256Digest>,
}

} // verus!
