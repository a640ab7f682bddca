use ferrodoc::{
    BlobId, BlobRange, BlobRegistry, BlobResolver, CoreError, EngineErrorCategory, MediaType,
    OneBlob, ScopedBlob, Sha256Digest,
};

#[test]
fn registry_enforces_digest_duplicate_and_range_scope() {
    let bytes = b"approved".to_vec();
    let scope = ScopedBlob {
        id: BlobId::new("blob").unwrap(),
        range: BlobRange::new(0, bytes.len() as u64).unwrap(),
        media_type: MediaType::new("text/plain").unwrap(),
        expected_digest: Some(Sha256Digest::of_bytes(&bytes)),
    };
    let mut registry = BlobRegistry::new();
    registry.register(scope.clone(), bytes).unwrap();
    assert_eq!(registry.resolve(&scope).unwrap(), b"approved");
    assert_eq!(
        registry
            .register(scope.clone(), b"approved".to_vec())
            .unwrap_err()
            .category,
        EngineErrorCategory::Protocol
    );
    let mut escaped = scope;
    escaped.range = BlobRange::new(7, 2).unwrap();
    assert_eq!(
        registry.resolve(&escaped).unwrap_err().category,
        EngineErrorCategory::InvalidRequest
    );
}

#[test]
fn registry_reads_ranges_and_releases() {
    let bytes = b"0123456789".to_vec();
    let scope = ScopedBlob {
        id: BlobId::new("digits").unwrap(),
        range: BlobRange::new(0, 10).unwrap(),
        media_type: MediaType::new("text/plain").unwrap(),
        expected_digest: None,
    };
    let mut registry = BlobRegistry::new();
    let mismatched = ScopedBlob { range: BlobRange::new(1, 9).unwrap(), ..scope.clone() };
    let error = registry.register(mismatched, bytes.clone()).unwrap_err();
    assert_eq!(error.message, "registered bytes do not match normalized blob range");
    let wrong_digest = ScopedBlob {
        expected_digest: Some(Sha256Digest::of_bytes(b"other")),
        ..scope.clone()
    };
    let error = registry.register(wrong_digest, bytes.clone()).unwrap_err();
    assert_eq!(error.message, "registered blob digest mismatch");

    let id = registry.register(scope.clone(), bytes).unwrap();
    assert_eq!(id.as_str(), "digits");
    let window = ScopedBlob { range: BlobRange::new(3, 4).unwrap(), ..scope.clone() };
    assert_eq!(registry.resolve(&window).unwrap(), b"3456");
    let checked = ScopedBlob {
        expected_digest: Some(Sha256Digest::of_bytes(b"3456")),
        ..window.clone()
    };
    assert_eq!(registry.resolve(&checked).unwrap(), b"3456");
    let stale = ScopedBlob {
        expected_digest: Some(Sha256Digest::of_bytes(b"9999")),
        ..window.clone()
    };
    assert_eq!(registry.resolve(&stale).unwrap_err().message, "resolved blob digest mismatch");
    let other_type = ScopedBlob { media_type: MediaType::new("image/png").unwrap(), ..window };
    assert_eq!(
        registry.resolve(&other_type).unwrap_err().message,
        "requested blob is outside its registered scope"
    );

    registry.release(&id).unwrap();
    assert_eq!(registry.resolve(&scope).unwrap_err().message, "unknown blob ID");
    assert_eq!(registry.release(&id).unwrap_err().message, "unknown blob ID");
}

#[test]
fn one_blob_resolves_ranges_of_its_own_bytes() {
    let bytes = b"page image bytes".to_vec();
    let blob = OneBlob::new("stage-input", bytes.clone(), "Image/PNG").unwrap();
    let whole = ScopedBlob {
        id: BlobId::new("stage-input").unwrap(),
        range: BlobRange::new(0, bytes.len() as u64).unwrap(),
        media_type: MediaType::new("image/png").unwrap(),
        expected_digest: Some(Sha256Digest::of_bytes(&bytes)),
    };
    assert_eq!(blob.resolve(&whole).unwrap(), bytes);

    let mut part = whole.clone();
    part.range = BlobRange::new(5, 5).unwrap();
    part.expected_digest = None;
    assert_eq!(blob.resolve(&part).unwrap(), b"image");
    part.expected_digest = Some(Sha256Digest::of_bytes(b"other"));
    let error = blob.resolve(&part).unwrap_err();
    assert_eq!(error.category, EngineErrorCategory::InvalidRequest);
    assert_eq!(error.message, "blob digest mismatch");

    let mut past_end = whole.clone();
    past_end.range = BlobRange::new(10, 7).unwrap();
    assert_eq!(
        blob.resolve(&past_end).unwrap_err().message,
        "blob token or range is outside the registered scope"
    );
    let mut other = whole;
    other.id = BlobId::new("other").unwrap();
    assert_eq!(
        blob.resolve(&other).unwrap_err().message,
        "blob token or range is outside the registered scope"
    );
}

#[test]
fn one_blob_refuses_empty_bytes_and_malformed_names() {
    let empty = OneBlob::new("stage-input", Vec::new(), "image/png").err().unwrap();
    assert_eq!(empty.category, EngineErrorCategory::InvalidRequest);
    assert!(!empty.retryable);
    assert_eq!(empty.message, "empty stage blob");
    let bad_id = OneBlob::new("bad id!", b"x".to_vec(), "image/png").err().unwrap();
    assert_eq!(
        bad_id.message,
        "invalid blob ID: \"bad id!\" (expected 1-128 ASCII letters, digits, '.', '_', or '-')"
    );
    let bad_media = OneBlob::new("blob", b"x".to_vec(), "png").err().unwrap();
    assert_eq!(
        bad_media.message,
        "invalid media type: \"png\" (expected type/subtype)"
    );
}

#[test]
fn core_errors_render_their_diagnostics() {
    let text = CoreError::InvalidText { kind: "blob ID", value: "a\"b".into(), reason: "bad" };
    assert_eq!(text.to_string(), "invalid blob ID: \"a\\\"b\" (bad)");
    let number = CoreError::InvalidNumber { kind: "bytes", reason: "negative" };
    assert_eq!(number.to_string(), "invalid bytes: negative");
    assert_eq!(
        CoreError::IncompatibleGeometry("unit mismatch").to_string(),
        "incompatible geometry: unit mismatch"
    );
    assert_eq!(
        CoreError::ArithmeticOverflow { kind: "bytes" }.to_string(),
        "bytes arithmetic overflow"
    );
    assert_eq!(CoreError::Io("gone".into()).to_string(), "I/O error: gone");
}
