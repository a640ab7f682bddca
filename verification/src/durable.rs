//! Durable immutable artifacts, cache keys, and checkpoint placement.

use std::collections::BTreeMap;

use vstd::prelude::*;
use vstd::string::StringSliceAdditionalSpecFns;

use crate::canonical::{owned, push_str};
use crate::digest::{sha256, Sha256Digest};
use crate::id::{artifact_prefix, stable_id_text, ArtifactId};
use crate::schema::{current_schema_spec, current_schema_version, SchemaVersion};

verus! {

/// Version of the durable store layout.
pub const STORE_VERSION: &'static str = "1";

/// Maximum canonical delta/manifest/checkpoint artifact accepted by the reference provider.
pub const MAX_DURABLE_ARTIFACT_BYTES: u64 = 536870912;

/// Every semantic input to a stage cache key.
#[derive(Debug, Clone, PartialEq, Eq)]
pub struct CacheKeyParts {
    /// Stage or capability namespace.
    pub stage: String,
    /// Immutable input artifact digest.
    pub input_digest: Sha256Digest,
    /// Model digests keyed by semantic role.
    pub model_digests: BTreeMap<String, Sha256Digest>,
    /// Engine ID.
    pub engine_id: String,
    /// Engine implementation/version identity.
    pub engine_version: String,
    /// Output schema version.
    pub schema_version: SchemaVersion,
    /// Digest of normalized parameters.
    pub parameter_digest: Sha256Digest,
}

/// Whether a stage result may enter the deterministic cache.
#[derive(Debug, Clone, PartialEq, Eq)]
pub enum Cacheability {
    /// Engine is deterministic for these inputs.
    Deterministic,
    /// Nondeterminism is controlled by this explicit seed.
    Seeded {
        /// Cache-relevant deterministic seed.
        seed: u64,
    },
    /// Stage cannot promise repeatable semantics.
    Uncacheable {
        /// Stable explanation.
        reason: String,
    },
}

/// Verified cache hit.
#[derive(Debug, Clone, PartialEq, Eq)]
pub struct CacheHit {
    /// Entry bytes.
    pub bytes: Vec<u8>,
    /// Declared media type.
    pub media_type: String,
}

/// Physical artifact class. The class is part of physical identity, not logical state identity.
#[derive(Debug, Clone, Copy, PartialEq, Eq, Structural)]
pub enum DurableArtifactKind {
    /// Canonical immutable `EvidenceDelta` JSON.
    EvidenceDelta,
    /// Canonical retained `DocumentStateManifest` JSON.
    StateManifest,
    /// Canonical complete `Document` JSON checkpoint.
    DocumentCheckpoint,
}

/// The stable label of an artifact class.
pub open spec fn kind_label(k: DurableArtifactKind) -> Seq<char> {
    match k {
        DurableArtifactKind::EvidenceDelta => "evidence-delta"@,
        DurableArtifactKind::StateManifest => "state-manifest"@,
        DurableArtifactKind::DocumentCheckpoint => "document-checkpoint"@,
    }
}

impl DurableArtifactKind {
    /// The stable label of the class.
    pub fn label(self) -> (s: &'static str)
        ensures
            s@ == kind_label(self),
    {
        match self {
            DurableArtifactKind::EvidenceDelta => "evidence-delta",
            DurableArtifactKind::StateManifest => "state-manifest",
            DurableArtifactKind::DocumentCheckpoint => "document-checkpoint",
        }
    }
}

/// A physical immutable realization and its separately retained logical identity.
#[derive(Debug, Clone, PartialEq, Eq)]
pub struct DurableArtifactRef {
    /// Physical artifact class.
    pub kind: DurableArtifactKind,
    /// Physical identity derived from exact stored bytes and representation.
    pub artifact_id: ArtifactId,
    /// Digest of exact stored bytes.
    pub bytes_sha256: Sha256Digest,
    /// Exact uncompressed byte count.
    pub bytes: u64,
    /// Logical delta, state, or DocumentIR digest represented by the bytes.
    pub logical_id: String,
    /// Physical representation media type.
    pub representation: String,
}

/// Durable artifacts emitted by one progressive execution.
#[derive(Debug, Clone, PartialEq, Eq)]
pub struct DurableExecutionArtifacts {
    /// One immutable physical artifact per returned delta.
    pub deltas: Vec<DurableArtifactRef>,
    /// Retained state-manifest realization.
    pub state_manifest: DurableArtifactRef,
    /// Canonical DocumentIR checkpoint realization.
    pub checkpoint: Option<DurableArtifactRef>,
}

/// Inputs to a caller-selected checkpoint-compaction policy.
#[derive(Debug, Clone, Copy, PartialEq, Eq)]
pub struct CheckpointPolicyContext {
    /// Complete delta count in the resulting state.
    pub state_delta_count: usize,
    /// Tail delta count executed since the supplied checkpoint.
    pub tail_delta_count: usize,
    /// Exact canonical DocumentIR byte count if checkpointed.
    pub canonical_document_bytes: u64,
}

/// Policy hook for choosing physical checkpoint placement without renaming logical state.
pub trait CheckpointPolicy {
    /// Returns whether the current complete canonical DocumentIR should be persisted.
    fn should_checkpoint(&self, context: CheckpointPolicyContext) -> bool;
}

/// Reference policies suitable for baseline and bounded replay compaction.
#[derive(Debug, Clone, Copy, PartialEq, Eq)]
pub enum ReferenceCheckpointPolicy {
    /// Persist every returned state (the compatibility default).
    Always,
    /// Persist when the complete chain reaches this many deltas.
    DeltaCountAtLeast(usize),
    /// Retain only deltas and the state manifest.
    Never,
}

/// Whether a reference policy persists a checkpoint in this context.
pub open spec fn reference_checkpoints(p: ReferenceCheckpointPolicy, c: CheckpointPolicyContext) -> bool {
    match p {
        ReferenceCheckpointPolicy::Always => true,
        ReferenceCheckpointPolicy::DeltaCountAtLeast(threshold) => c.state_delta_count >= threshold,
        ReferenceCheckpointPolicy::Never => false,
    }
}

impl CheckpointPolicy for ReferenceCheckpointPolicy {
    fn should_checkpoint(&self, context: CheckpointPolicyContext) -> (r: bool)
        ensures
            r == reference_checkpoints(*self, context),
    {
        match self {
            ReferenceCheckpointPolicy::Always => true,
            ReferenceCheckpointPolicy::DeltaCountAtLeast(threshold) => context.state_delta_count
                >= *threshold,
            ReferenceCheckpointPolicy::Never => false,
        }
    }
}

/// Low-cardinality durable namespace selected by the runtime contract.
#[derive(Debug, Clone, Copy, PartialEq, Eq)]
pub enum DurableNamespace {
    /// Content-addressed retained artifacts.
    Artifacts,
    /// State-aware deterministic refinement results.
    Refinements,
}

/// The cache key of a stored physical artifact: its class, exact bytes and
/// representation, under the durable store's identity and the current schema.
pub fn artifact_key(kind: DurableArtifactKind, bytes_sha256: Sha256Digest, representation: &str) -> (k:
    CacheKeyParts)
    ensures
        k.stage@ == "durable."@ + kind_label(kind),
        k.input_digest == bytes_sha256,
        k.model_digests@.is_empty(),
        k.engine_id@ == "ferrodoc-durable-store"@,
        k.engine_version@ == STORE_VERSION@,
        k.schema_version == current_schema_spec(),
        k.parameter_digest@ == sha256(representation.spec_bytes()),
{
    let mut stage = owned("durable.");
    push_str(&mut stage, kind.label());
    CacheKeyParts {
        stage,
        input_digest: bytes_sha256,
        model_digests: BTreeMap::new(),
        engine_id: owned("ferrodoc-durable-store"),
        engine_version: owned(STORE_VERSION),
        schema_version: current_schema_version(),
        parameter_digest: Sha256Digest::of_bytes(representation.as_bytes()),
    }
}


/// The identity of a stored physical artifact: derived from the store's artifact domain,
/// the artifact class, its representation and its exact bytes.
pub fn artifact_id(kind: DurableArtifactKind, bytes_sha256: Sha256Digest, representation: &str) -> (id:
    ArtifactId)
    ensures
        id@ == stable_id_text(
            artifact_prefix(),
            seq![
                "ferrodoc-durable-artifact/1".spec_bytes(),
                vstd::utf8::encode_utf8(kind_label(kind)),
                representation.spec_bytes(),
                bytes_sha256@,
            ],
        ),
{
    let domain = "ferrodoc-durable-artifact/1";
    let label = kind.label();
    let digest = bytes_sha256.as_bytes();
    let parts: [&[u8]; 4] = [domain.as_bytes(), label.as_bytes(), representation.as_bytes(), digest.as_slice()];
    let id = ArtifactId::derive(&parts);
    assert(crate::id::parts_view(parts@) =~= seq![
        "ferrodoc-durable-artifact/1".spec_bytes(),
        vstd::utf8::encode_utf8(kind_label(kind)),
        representation.spec_bytes(),
        bytes_sha256@,
    ]);
    id
}
} // verus!
