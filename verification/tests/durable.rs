use ferrodoc::{
    artifact_id,
    artifact_key, current_schema_version, CheckpointPolicy, CheckpointPolicyContext,
    DurableArtifactKind, ReferenceCheckpointPolicy, Sha256Digest, STORE_VERSION,
};

#[test]
fn reference_checkpoint_policies_decide_by_chain_length() {
    let context = |count: usize| CheckpointPolicyContext {
        state_delta_count: count,
        tail_delta_count: 1,
        canonical_document_bytes: 4096,
    };
    assert!(ReferenceCheckpointPolicy::Always.should_checkpoint(context(0)));
    assert!(!ReferenceCheckpointPolicy::Never.should_checkpoint(context(100)));
    let every_four = ReferenceCheckpointPolicy::DeltaCountAtLeast(4);
    assert!(!every_four.should_checkpoint(context(3)));
    assert!(every_four.should_checkpoint(context(4)));
}

#[test]
fn artifact_keys_bind_class_bytes_and_representation() {
    let bytes = Sha256Digest::of_bytes(b"canonical delta");
    let key = artifact_key(DurableArtifactKind::EvidenceDelta, bytes, "application/json");
    assert_eq!(key.stage, "durable.evidence-delta");
    assert_eq!(key.input_digest, bytes);
    assert!(key.model_digests.is_empty());
    assert_eq!(key.engine_id, "ferrodoc-durable-store");
    assert_eq!(key.engine_version, STORE_VERSION);
    assert_eq!(key.schema_version, current_schema_version());
    assert_eq!(key.parameter_digest, Sha256Digest::of_bytes(b"application/json"));
    let checkpoint = artifact_key(DurableArtifactKind::DocumentCheckpoint, bytes, "application/json");
    assert_eq!(checkpoint.stage, "durable.document-checkpoint");
    assert_eq!(DurableArtifactKind::StateManifest.label(), "state-manifest");
}

#[test]
fn artifact_identity_covers_class_representation_and_bytes() {
    let bytes = Sha256Digest::of_bytes(b"delta bytes");
    let id = artifact_id(DurableArtifactKind::EvidenceDelta, bytes, "canonical-json");
    assert_eq!(
        id.as_str(),
        "artifact_ad3ce5f85e3c5ce6918724dccb39bf0169a6ba8628160e1264e4167010a975c5"
    );
    assert_ne!(artifact_id(DurableArtifactKind::StateManifest, bytes, "canonical-json"), id);
    assert_ne!(artifact_id(DurableArtifactKind::EvidenceDelta, bytes, "pretty-json"), id);
    let other = Sha256Digest::of_bytes(b"other bytes");
    assert_ne!(artifact_id(DurableArtifactKind::EvidenceDelta, other, "canonical-json"), id);
}
