//! Content-addressed model store: what must hold before a model view becomes visible.
//!
//! The host reads files and publishes directories; this module decides whether the
//! acquired bytes may be installed at all.

use vstd::prelude::*;

use crate::canonical::{owned, push_str};
use crate::digest::{hex_text, sha256, Sha256Digest};
use crate::id::ModelId;
use crate::manifest::{ModelFile, ModelManifest, RelativePath};
use crate::text::{decimal, push_decimal};

verus! {

/// One installed, verified model view.
#[derive(Debug, Clone, PartialEq, Eq)]
pub struct InstalledModel {
    /// Stable model ID.
    pub id: ModelId,
    /// Source revision from the manifest.
    pub revision: String,
    /// Digest of the canonical manifest bytes.
    pub manifest_digest: Sha256Digest,
    /// Verified view directory.
    pub path: String,
}

/// Garbage-collection outcome.
#[derive(Debug, Clone, Copy, PartialEq, Eq)]
pub struct GcReport {
    /// Number of removed unreferenced blobs.
    pub removed_blobs: u64,
    /// Bytes reclaimed from removed blobs.
    pub reclaimed_bytes: u64,
}

/// Why a model could not be installed or read.
#[derive(Debug, Clone, PartialEq, Eq)]
pub enum ModelStoreError {
    /// Installation requires explicit terms acceptance.
    AcceptanceRequired(ModelId),
    /// A required source file is missing, escaped its source root, or is not regular.
    InvalidSource {
        /// Manifest logical path.
        logical_path: RelativePath,
        /// Stable explanation.
        reason: String,
    },
    /// Source or stored content did not match its manifest.
    Verification {
        /// Manifest logical path.
        logical_path: RelativePath,
        /// Stable explanation.
        reason: String,
    },
    /// Existing immutable store state is corrupt.
    Corrupt {
        /// Corrupt path.
        path: String,
        /// Stable explanation.
        reason: String,
    },
}

/// An error as its kind (acceptance, source, verification, corruption), subject and reason.
pub open spec fn error_view(e: ModelStoreError) -> (u8, Seq<char>, Seq<char>) {
    match e {
        ModelStoreError::AcceptanceRequired(id) => (0, id@, Seq::empty()),
        ModelStoreError::InvalidSource { logical_path, reason } => (1, logical_path@, reason@),
        ModelStoreError::Verification { logical_path, reason } => (2, logical_path@, reason@),
        ModelStoreError::Corrupt { path, reason } => (3, path@, reason@),
    }
}

/// What file bytes break against a manifest entry: their size, then their digest.
pub open spec fn file_refusal(
    path: Seq<char>,
    expected_bytes: u64,
    expected_digest: Seq<u8>,
    bytes: Seq<u8>,
) -> Option<(u8, Seq<char>, Seq<char>)> {
    if bytes.len() != expected_bytes {
        Some(
            (
                2,
                path,
                "expected "@ + decimal(expected_bytes as nat) + " bytes, found "@ + decimal(
                    bytes.len(),
                ),
            ),
        )
    } else if sha256(bytes) != expected_digest {
        Some(
            (
                2,
                path,
                "expected digest "@ + hex_text(expected_digest) + ", found "@ + hex_text(
                    sha256(bytes),
                ),
            ),
        )
    } else {
        None
    }
}

/// Checks file bytes against their manifest size and digest.
pub fn verify_file(
    path: &RelativePath,
    expected_bytes: u64,
    expected_digest: Sha256Digest,
    bytes: &[u8],
) -> (r: Result<(), ModelStoreError>)
    ensures
        match file_refusal(path@, expected_bytes, expected_digest@, bytes@) {
            None => r is Ok,
            Some(v) => r is Err && error_view(r->Err_0) == v,
        },
{
    if bytes.len() as u64 != expected_bytes {
        let mut reason = owned("expected ");
        push_decimal(&mut reason, expected_bytes);
        push_str(&mut reason, " bytes, found ");
        push_decimal(&mut reason, bytes.len() as u64);
        return Err(ModelStoreError::Verification { logical_path: path.clone(), reason });
    }
    let actual = Sha256Digest::of_bytes(bytes);
    if !actual.same_as(&expected_digest) {
        proof {
            broadcast use crate::digest::lemma_digest_view_injective;

        }
        let mut reason = owned("expected digest ");
        push_str(&mut reason, expected_digest.to_string().as_str());
        push_str(&mut reason, ", found ");
        push_str(&mut reason, actual.to_string().as_str());
        return Err(ModelStoreError::Verification { logical_path: path.clone(), reason });
    }
    proof {
        broadcast use crate::digest::lemma_digest_view_injective;

    }
    Ok(())
}

/// Index of the first source whose path is `path`.
pub open spec fn source_position(sources: Seq<(RelativePath, Vec<u8>)>, path: Seq<char>, n: nat) -> Option<
    int,
>
    decreases n,
{
    if n == 0 {
        None
    } else {
        match source_position(sources, path, (n - 1) as nat) {
            Some(k) => Some(k),
            None => if sources[n - 1].0@ == path {
                Some(n - 1)
            } else {
                None
            },
        }
    }
}

/// What the acquired sources break for one manifest file.
pub open spec fn source_refusal(f: ModelFile, sources: Seq<(RelativePath, Vec<u8>)>) -> Option<
    (u8, Seq<char>, Seq<char>),
> {
    match source_position(sources, f.path_view(), sources.len()) {
        None => Some((1, f.path_view(), "file is absent"@)),
        Some(k) => file_refusal(f.path_view(), f.bytes_view(), f.digest_view(), sources[k].1@),
    }
}

/// The first refusal among the first `n` manifest files.
pub open spec fn files_refusal(
    files: Seq<ModelFile>,
    sources: Seq<(RelativePath, Vec<u8>)>,
    n: nat,
) -> Option<(u8, Seq<char>, Seq<char>)>
    decreases n,
{
    if n == 0 {
        None
    } else {
        match files_refusal(files, sources, (n - 1) as nat) {
            Some(v) => Some(v),
            None => source_refusal(files[n - 1], sources),
        }
    }
}

/// Why acquired sources may not be installed for a manifest, if they may not: terms
/// that need acceptance and were not accepted, then the first manifest file whose source
/// is absent or whose bytes differ in size or digest.
pub open spec fn install_refusal(
    manifest: ModelManifest,
    sources: Seq<(RelativePath, Vec<u8>)>,
    accepted: bool,
) -> Option<(u8, Seq<char>, Seq<char>)> {
    if manifest.acceptance_view() is Some && !accepted {
        Some((0, manifest.id_view(), Seq::empty()))
    } else {
        files_refusal(manifest.files_view(), sources, manifest.files_view().len())
    }
}

/// Once a prefix of files holds a refusal, longer prefixes agree.
proof fn lemma_files_refusal_sticks(
    files: Seq<ModelFile>,
    sources: Seq<(RelativePath, Vec<u8>)>,
    i: nat,
    n: nat,
)
    requires
        i <= n,
        files_refusal(files, sources, i) is Some,
    ensures
        files_refusal(files, sources, n) == files_refusal(files, sources, i),
    decreases n - i,
{
    if i < n {
        lemma_files_refusal_sticks(files, sources, i, (n - 1) as nat);
    }
}

/// Once a prefix of sources holds the path, longer prefixes agree.
proof fn lemma_source_position_sticks(
    sources: Seq<(RelativePath, Vec<u8>)>,
    path: Seq<char>,
    i: nat,
    n: nat,
)
    requires
        i <= n,
        source_position(sources, path, i) is Some,
    ensures
        source_position(sources, path, n) == source_position(sources, path, i),
    decreases n - i,
{
    if i < n {
        lemma_source_position_sticks(sources, path, i, (n - 1) as nat);
    }
}

/// Position of the first source at `path`.
fn find_source(sources: &[(RelativePath, Vec<u8>)], path: &RelativePath) -> (r: Option<usize>)
    ensures
        match r {
            Some(k) => source_position(sources@, path@, sources@.len()) == Some(k as int) && k
                < sources@.len(),
            None => source_position(sources@, path@, sources@.len()) is None,
        },
{
    let mut k: usize = 0;
    while k < sources.len()
        invariant
            k <= sources@.len(),
            source_position(sources@, path@, k as nat) is None,
        decreases sources@.len() - k,
    {
        if sources[k].0.same_as(path) {
            proof {
                lemma_source_position_sticks(sources@, path@, (k + 1) as nat, sources@.len());
            }
            return Some(k);
        }
        k = k + 1;
    }
    None
}

/// Decides whether acquired sources may be installed for a manifest.
pub fn check_install(
    manifest: &ModelManifest,
    sources: &[(RelativePath, Vec<u8>)],
    accepted: bool,
) -> (r: Result<(), ModelStoreError>)
    ensures
        match install_refusal(*manifest, sources@, accepted) {
            None => r is Ok,
            Some(v) => r is Err && error_view(r->Err_0) == v,
        },
{
    if manifest.acceptance().is_some() && !accepted {
        return Err(ModelStoreError::AcceptanceRequired(manifest.id().clone()));
    }
    let files = manifest.files();
    let mut i: usize = 0;
    while i < files.len()
        invariant
            files@ == manifest.files_view(),
            i <= files@.len(),
            files_refusal(files@, sources@, i as nat) is None,
            install_refusal(*manifest, sources@, accepted) == files_refusal(
                files@,
                sources@,
                files@.len(),
            ),
        decreases files@.len() - i,
    {
        let file = &files[i];
        match find_source(sources, file.path()) {
            None => {
                proof {
                    lemma_files_refusal_sticks(files@, sources@, (i + 1) as nat, files@.len());
                }
                return Err(
                    ModelStoreError::InvalidSource {
                        logical_path: file.path().clone(),
                        reason: owned("file is absent"),
                    },
                );
            },
            Some(k) => {
                match verify_file(
                    file.path(),
                    file.bytes().get(),
                    file.digest(),
                    sources[k].1.as_slice(),
                ) {
                    Err(e) => {
                        proof {
                            lemma_files_refusal_sticks(
                                files@,
                                sources@,
                                (i + 1) as nat,
                                files@.len(),
                            );
                        }
                        return Err(e);
                    },
                    Ok(()) => {},
                }
            },
        }
        i = i + 1;
    }
    Ok(())
}

/// Installation is all or nothing: sources that may be installed hold, for every manifest
/// file, bytes of exactly the declared size and digest.
pub proof fn lemma_installable_sources_match_manifest(
    manifest: ModelManifest,
    sources: Seq<(RelativePath, Vec<u8>)>,
    accepted: bool,
)
    requires
        install_refusal(manifest, sources, accepted) is None,
    ensures
        manifest.acceptance_view() is Some ==> accepted,
        forall|i: int|
            0 <= i < manifest.files_view().len() ==> #[trigger] source_refusal(
                manifest.files_view()[i],
                sources,
            ) is None,
{
    let files = manifest.files_view();
    assert forall|i: int| 0 <= i < files.len() implies #[trigger] source_refusal(files[i], sources)
        is None by {
        lemma_files_clean(files, sources, files.len(), i);
    }
}

/// A prefix free of refusals has no refused file.
proof fn lemma_files_clean(files: Seq<ModelFile>, sources: Seq<(RelativePath, Vec<u8>)>, n: nat, i: int)
    requires
        files_refusal(files, sources, n) is None,
        0 <= i < n,
    ensures
        source_refusal(files[i], sources) is None,
    decreases n,
{
    if i < n - 1 {
        lemma_files_clean(files, sources, (n - 1) as nat, i);
    }
}

} // verus!
