//! The plugin-side registry of host-approved blobs.
//!
//! A blob is registered whole, under a fresh identifier and with the digest the host
//! expects; engines may then read only ranges inside what was registered.

use vstd::prelude::*;

use crate::assoc::{
    assoc, has_key, keys_unique, lemma_assoc_absent, lemma_assoc_found, lemma_assoc_insert,
    lemma_assoc_remove,
};
use crate::blob::{valid_blob_id, BlobId, BlobRange, ScopedBlob};
use crate::canonical::{media_type_from, media_type_reason, MediaType};
use crate::cli::debug_text;
use crate::digest::{sha256, Sha256Digest};
use crate::engine::{BlobResolver, EngineError, EngineErrorCategory};
use crate::text::{chars_equal, chars_of};

verus! {

/// One registration: the approved scope and its exact bytes.
pub struct RegisteredBlob {
    /// The approved scope.
    pub scope: ScopedBlob,
    /// The registered bytes.
    pub bytes: Vec<u8>,
}

/// Registrations keyed by blob identifier.
pub open spec fn registrations(v: Seq<RegisteredBlob>) -> Seq<(Seq<char>, (ScopedBlob, Seq<u8>))> {
    Seq::new(v.len(), |i: int| (v[i].scope.id@, (v[i].scope, v[i].bytes@)))
}

/// Blobs registered by the host for one engine session.
pub struct BlobRegistry {
    blobs: Vec<RegisteredBlob>,
}

impl View for BlobRegistry {
    type V = Seq<(Seq<char>, (ScopedBlob, Seq<u8>))>;

    closed spec fn view(&self) -> Self::V {
        registrations(self.blobs@)
    }
}

/// An engine error category with its message.
pub type Refusal = (EngineErrorCategory, Seq<char>);

/// The outcome of registering `bytes` as `blob`: the scope must cover exactly the bytes
/// from offset zero, match its expected digest, and use a fresh identifier.
pub open spec fn register_outcome(
    reg: Seq<(Seq<char>, (ScopedBlob, Seq<u8>))>,
    blob: ScopedBlob,
    bytes: Seq<u8>,
) -> Option<Refusal> {
    if blob.range@.0 != 0 || blob.range@.1 != bytes.len() {
        Some(
            (
                EngineErrorCategory::InvalidRequest,
                "registered bytes do not match normalized blob range"@,
            ),
        )
    } else if blob.expected_digest matches Some(d) && d@ != sha256(bytes) {
        Some((EngineErrorCategory::InvalidRequest, "registered blob digest mismatch"@))
    } else if assoc(reg, blob.id@) is Some {
        Some((EngineErrorCategory::Protocol, "duplicate blob ID"@))
    } else {
        None
    }
}

/// The outcome of resolving `blob`: the registered bytes of its range, when it is
/// registered, stays inside the registered scope and media type, fits the platform's
/// addresses, and matches its expected digest.
pub open spec fn resolve_outcome(reg: Seq<(Seq<char>, (ScopedBlob, Seq<u8>))>, blob: ScopedBlob) -> Result<
    Seq<u8>,
    Refusal,
> {
    match assoc(reg, blob.id@) {
        None => Err((EngineErrorCategory::InvalidRequest, "unknown blob ID"@)),
        Some((scope, bytes)) => {
            let start = blob.range@.0;
            let end = blob.range@.0 + blob.range@.1;
            if blob.media_type@ != scope.media_type@ || start < scope.range@.0 || end
                > scope.range@.0 + scope.range@.1 {
                Err(
                    (
                        EngineErrorCategory::InvalidRequest,
                        "requested blob is outside its registered scope"@,
                    ),
                )
            } else if start > usize::MAX {
                Err((EngineErrorCategory::InvalidRequest, "blob offset overflow"@))
            } else if end > usize::MAX {
                Err((EngineErrorCategory::InvalidRequest, "blob end overflow"@))
            } else if end > bytes.len() {
                Err((EngineErrorCategory::InvalidRequest, "blob range overflow"@))
            } else if blob.expected_digest matches Some(d) && d@ != sha256(
                bytes.subrange(start as int, end),
            ) {
                Err((EngineErrorCategory::InvalidRequest, "resolved blob digest mismatch"@))
            } else {
                Ok(bytes.subrange(start as int, end))
            }
        },
    }
}

/// An error as its category and message.
pub open spec fn refusal_of(e: EngineError) -> Refusal {
    (e.category, e.message@)
}

/// True when both texts are the same.
fn same_text(a: &str, b: &str) -> (r: bool)
    ensures
        r == (a@ == b@),
{
    let x = chars_of(a);
    let y = chars_of(b);
    chars_equal(x.as_slice(), y.as_slice())
}

/// A refusal that is never worth retrying.
fn refuse(category: EngineErrorCategory, message: &str) -> (e: EngineError)
    ensures
        refusal_of(e) == (category, message@),
        !e.retryable,
{
    EngineError::new(category, false, message)
}

/// True when the digest is absent or equals the hash of `bytes`.
fn digest_matches(expected: &Option<Sha256Digest>, bytes: &[u8]) -> (r: bool)
    ensures
        r == !(*expected matches Some(d) && d@ != sha256(bytes@)),
{
    match expected {
        None => true,
        Some(d) => {
            let actual = Sha256Digest::of_bytes(bytes);
            let same = d.same_as(&actual);
            proof {
                broadcast use crate::digest::lemma_digest_view_injective;

            }
            same
        },
    }
}

impl BlobRegistry {
    #[verifier::type_invariant]
    spec fn well_formed(self) -> bool {
        keys_unique(registrations(self.blobs@))
    }

    /// An empty registry.
    pub fn new() -> (r: Self)
        ensures
            r@ == Seq::<(Seq<char>, (ScopedBlob, Seq<u8>))>::empty(),
    {
        let r = BlobRegistry { blobs: Vec::new() };
        assert(registrations(r.blobs@) =~= Seq::empty());
        r
    }

    /// Position of the registration with identifier `id`, if any.
    fn position(&self, id: &BlobId) -> (r: Option<usize>)
        ensures
            match r {
                Some(i) => i < self.blobs@.len() && self.blobs@[i as int].scope.id@ == id@,
                None => !has_key(self@, id@),
            },
    {
        let mut i: usize = 0;
        while i < self.blobs.len()
            invariant
                i <= self.blobs@.len(),
                forall|k: int| 0 <= k < i ==> (#[trigger] self.blobs@[k]).scope.id@ != id@,
            decreases self.blobs@.len() - i,
        {
            if same_text(self.blobs[i].scope.id.as_str(), id.as_str()) {
                return Some(i);
            }
            i = i + 1;
        }
        assert(!has_key(self@, id@)) by {
            if has_key(self@, id@) {
                let k = choose|k: int| 0 <= k < self@.len() && self@[k].0 == id@;
                assert(self.blobs@[k].scope.id@ == id@);
            }
        }
        None
    }

    /// Registers a whole blob under a fresh identifier.
    pub fn register(&mut self, blob: ScopedBlob, bytes: Vec<u8>) -> (r: Result<BlobId, EngineError>)
        ensures
            match register_outcome(old(self)@, blob, bytes@) {
                Some(refusal) => r is Err && refusal_of(r->Err_0) == refusal && final(self)@
                    == old(self)@,
                None => r matches Ok(id) && id@ == blob.id@ && forall|k: Seq<char>|
                    #[trigger] assoc(final(self)@, k) == if k == blob.id@ {
                        Some((blob, bytes@))
                    } else {
                        assoc(old(self)@, k)
                    },
            },
    {
        proof {
            use_type_invariant(&*self);
        }
        if blob.range.offset() != 0 || blob.range.len() != bytes.len() as u64 {
            return Err(
                refuse(
                    EngineErrorCategory::InvalidRequest,
                    "registered bytes do not match normalized blob range",
                ),
            );
        }
        if !digest_matches(&blob.expected_digest, bytes.as_slice()) {
            return Err(refuse(EngineErrorCategory::InvalidRequest, "registered blob digest mismatch"));
        }
        match self.position(&blob.id) {
            Some(i) => {
                proof {
                    lemma_assoc_found(self@, i as int);
                }
                return Err(refuse(EngineErrorCategory::Protocol, "duplicate blob ID"));
            },
            None => {
                proof {
                    lemma_assoc_absent(self@, blob.id@);
                }
            },
        }
        let id = blob.id.clone();
        let ghost before = self@;
        let ghost entry = (blob.id@, (blob, bytes@));
        proof {
            lemma_assoc_insert(before, before.len() as int, blob.id@, (blob, bytes@));
            assert(before.insert(before.len() as int, entry) =~= before.push(entry));
        }
        let mut blobs: Vec<RegisteredBlob> = Vec::new();
        std::mem::swap(&mut blobs, &mut self.blobs);
        blobs.push(RegisteredBlob { scope: blob, bytes });
        assert(registrations(blobs@) =~= before.push(entry));
        self.blobs = blobs;
        Ok(id)
    }

    /// Releases a registration.
    pub fn release(&mut self, id: &BlobId) -> (r: Result<(), EngineError>)
        ensures
            has_key(old(self)@, id@) ==> r is Ok && forall|k: Seq<char>|
                #[trigger] assoc(final(self)@, k) == if k == id@ {
                    None
                } else {
                    assoc(old(self)@, k)
                },
            !has_key(old(self)@, id@) ==> r is Err && refusal_of(r->Err_0) == (
                EngineErrorCategory::InvalidRequest,
                "unknown blob ID"@,
            ) && final(self)@ == old(self)@,
    {
        proof {
            use_type_invariant(&*self);
        }
        match self.position(id) {
            None => Err(refuse(EngineErrorCategory::InvalidRequest, "unknown blob ID")),
            Some(i) => {
                let ghost before = self@;
                proof {
                    assert(before[i as int].0 == id@);
                    lemma_assoc_remove(before, i as int);
                }
                let mut blobs: Vec<RegisteredBlob> = Vec::new();
                std::mem::swap(&mut blobs, &mut self.blobs);
                blobs.remove(i);
                assert(registrations(blobs@) =~= before.remove(i as int));
                self.blobs = blobs;
                Ok(())
            },
        }
    }
}

impl BlobResolver for BlobRegistry {
    fn resolve(&self, blob: &ScopedBlob) -> (r: Result<Vec<u8>, EngineError>)
        ensures
            match resolve_outcome(self@, *blob) {
                Ok(bytes) => r matches Ok(v) && v@ == bytes,
                Err(refusal) => r is Err && refusal_of(r->Err_0) == refusal,
            },
    {
        proof {
            use_type_invariant(self);
        }
        let i = match self.position(&blob.id) {
            None => {
                proof {
                    lemma_assoc_absent(self@, blob.id@);
                }
                return Err(refuse(EngineErrorCategory::InvalidRequest, "unknown blob ID"));
            },
            Some(i) => i,
        };
        proof {
            lemma_assoc_found(self@, i as int);
        }
        let registered = &self.blobs[i];
        if !same_text(blob.media_type.as_str(), registered.scope.media_type.as_str())
            || blob.range.offset() < registered.scope.range.offset() || blob.range.end()
            > registered.scope.range.end() {
            return Err(
                refuse(
                    EngineErrorCategory::InvalidRequest,
                    "requested blob is outside its registered scope",
                ),
            );
        }
        let offset = blob.range.offset();
        let end = blob.range.end();
        if offset > usize::MAX as u64 {
            return Err(refuse(EngineErrorCategory::InvalidRequest, "blob offset overflow"));
        }
        if end > usize::MAX as u64 {
            return Err(refuse(EngineErrorCategory::InvalidRequest, "blob end overflow"));
        }
        let start = offset as usize;
        let stop = end as usize;
        if stop > registered.bytes.len() {
            return Err(refuse(EngineErrorCategory::InvalidRequest, "blob range overflow"));
        }
        let mut out: Vec<u8> = Vec::new();
        let mut k: usize = start;
        while k < stop
            invariant
                start <= k <= stop <= registered.bytes@.len(),
                out@ == registered.bytes@.subrange(start as int, k as int),
            decreases stop - k,
        {
            out.push(registered.bytes[k]);
            assert(registered.bytes@.subrange(start as int, k + 1) =~= registered.bytes@.subrange(
                start as int,
                k as int,
            ).push(registered.bytes@[k as int]));
            k = k + 1;
        }
        if !digest_matches(&blob.expected_digest, out.as_slice()) {
            return Err(refuse(EngineErrorCategory::InvalidRequest, "resolved blob digest mismatch"));
        }
        Ok(out)
    }
}

/// A read gives back what a write wrote: once a blob is registered whole, resolving its
/// own scope returns exactly the registered bytes.
pub proof fn lemma_resolve_returns_registered_bytes(
    reg: Seq<(Seq<char>, (ScopedBlob, Seq<u8>))>,
    blob: ScopedBlob,
    bytes: Seq<u8>,
)
    requires
        register_outcome(reg, blob, bytes) is None,
        bytes.len() <= usize::MAX,
    ensures
        resolve_outcome(reg.push((blob.id@, (blob, bytes))), blob) == Ok::<Seq<u8>, Refusal>(
            bytes,
        ),
{
    let after = reg.push((blob.id@, (blob, bytes)));
    assert(after.last() == (blob.id@, (blob, bytes)));
    assert(bytes.subrange(0, bytes.len() as int) =~= bytes);
}


/// A resolver over one whole blob handed to a single stage invocation.
pub struct OneBlob {
    scoped: ScopedBlob,
    digest: Sha256Digest,
    bytes: Vec<u8>,
}

impl View for OneBlob {
    type V = (ScopedBlob, Seq<u8>);

    closed spec fn view(&self) -> (ScopedBlob, Seq<u8>) {
        (self.scoped, self.bytes@)
    }
}

/// The outcome of wrapping `bytes` as one blob: its identifier and normalized media type,
/// or the refusal of empty bytes, of a malformed identifier, or of a malformed media type.
pub open spec fn one_blob_outcome(id: Seq<char>, bytes: Seq<u8>, media_type: Seq<char>) -> Result<
    (Seq<char>, Seq<char>),
    Refusal,
> {
    if bytes.len() == 0 {
        Err((EngineErrorCategory::InvalidRequest, "empty stage blob"@))
    } else if !valid_blob_id(id) {
        Err(
            (
                EngineErrorCategory::InvalidRequest,
                "invalid "@ + "blob ID"@ + ": "@ + debug_text(id) + " ("@
                    + "expected 1-128 ASCII letters, digits, '.', '_', or '-'"@ + ")"@,
            ),
        )
    } else {
        match media_type_from(media_type) {
            None => Err(
                (
                    EngineErrorCategory::InvalidRequest,
                    "invalid "@ + "media type"@ + ": "@ + debug_text(media_type) + " ("@
                        + media_type_reason(media_type) + ")"@,
                ),
            ),
            Some(m) => Ok((id, m)),
        }
    }
}

/// The outcome of resolving `blob` against one wrapped blob: the bytes of its range, when
/// it names the wrapped blob, ends inside it, and matches its expected digest.
pub open spec fn one_blob_resolve(scope: ScopedBlob, bytes: Seq<u8>, blob: ScopedBlob) -> Result<
    Seq<u8>,
    Refusal,
> {
    let start = blob.range@.0;
    let end = blob.range@.0 + blob.range@.1;
    if blob.id@ != scope.id@ || end > bytes.len() {
        Err(
            (
                EngineErrorCategory::InvalidRequest,
                "blob token or range is outside the registered scope"@,
            ),
        )
    } else if blob.expected_digest matches Some(d) && d@ != sha256(
        bytes.subrange(start as int, end),
    ) {
        Err((EngineErrorCategory::InvalidRequest, "blob digest mismatch"@))
    } else {
        Ok(bytes.subrange(start as int, end))
    }
}

impl OneBlob {
    /// Wraps nonempty bytes under a blob identifier and media type, scoped to all of
    /// them and pinned to their digest.
    pub fn new(id: &str, bytes: Vec<u8>, media_type: &str) -> (r: Result<Self, EngineError>)
        ensures
            match one_blob_outcome(id@, bytes@, media_type@) {
                Err(refusal) => r is Err && refusal_of(r->Err_0) == refusal && !r->Err_0.retryable,
                Ok((i, m)) => r matches Ok(b) && b@.0.id@ == i && b@.0.range@ == (
                    0u64,
                    bytes@.len() as u64,
                ) && b@.0.media_type@ == m && (b@.0.expected_digest matches Some(d) && d@
                    == sha256(bytes@)) && b@.1 == bytes@,
            },
    {
        if bytes.len() == 0 {
            return Err(refuse(EngineErrorCategory::InvalidRequest, "empty stage blob"));
        }
        let digest = Sha256Digest::of_bytes(bytes.as_slice());
        let blob_id = match BlobId::new(id) {
            Ok(b) => b,
            Err(e) => {
                let message = e.to_string();
                return Err(EngineError::new(EngineErrorCategory::InvalidRequest, false, message.as_str()));
            },
        };
        let len = bytes.len() as u64;
        let range = match BlobRange::new(0, len) {
            Ok(r) => r,
            Err(e) => {
                let message = e.to_string();
                return Err(EngineError::new(EngineErrorCategory::InvalidRequest, false, message.as_str()));
            },
        };
        let media = match MediaType::new(media_type) {
            Ok(m) => m,
            Err(e) => {
                let message = e.to_string();
                return Err(EngineError::new(EngineErrorCategory::InvalidRequest, false, message.as_str()));
            },
        };
        let scoped = ScopedBlob { id: blob_id, range, media_type: media, expected_digest: Some(digest) };
        Ok(OneBlob { scoped, digest, bytes })
    }
}

impl BlobResolver for OneBlob {
    fn resolve(&self, blob: &ScopedBlob) -> (r: Result<Vec<u8>, EngineError>)
        ensures
            match one_blob_resolve(self@.0, self@.1, *blob) {
                Ok(bytes) => r matches Ok(v) && v@ == bytes,
                Err(refusal) => r is Err && refusal_of(r->Err_0) == refusal,
            },
    {
        let end = blob.range.end();
        if !same_text(blob.id.as_str(), self.scoped.id.as_str()) || end > self.bytes.len() as u64 {
            return Err(
                refuse(
                    EngineErrorCategory::InvalidRequest,
                    "blob token or range is outside the registered scope",
                ),
            );
        }
        let start = blob.range.offset() as usize;
        let stop = end as usize;
        let mut out: Vec<u8> = Vec::new();
        let mut k: usize = start;
        while k < stop
            invariant
                start <= k <= stop <= self.bytes@.len(),
                out@ == self.bytes@.subrange(start as int, k as int),
            decreases stop - k,
        {
            out.push(self.bytes[k]);
            assert(self.bytes@.subrange(start as int, k + 1) =~= self.bytes@.subrange(
                start as int,
                k as int,
            ).push(self.bytes@[k as int]));
            k = k + 1;
        }
        if !digest_matches(&blob.expected_digest, out.as_slice()) {
            return Err(refuse(EngineErrorCategory::InvalidRequest, "blob digest mismatch"));
        }
        Ok(out)
    }
}

/// A wrapped blob resolves its own scope to exactly its bytes.
pub proof fn lemma_one_blob_resolves_its_scope(scope: ScopedBlob, bytes: Seq<u8>)
    requires
        scope.range@ == (0u64, bytes.len() as u64),
        bytes.len() <= u64::MAX,
        scope.expected_digest matches Some(d) && d@ == sha256(bytes),
    ensures
        one_blob_resolve(scope, bytes, scope) == Ok::<Seq<u8>, Refusal>(bytes),
{
    assert(bytes.subrange(0, bytes.len() as int) =~= bytes);
}
} // verus!
