use ferrodoc::{
    check_install, verify_file, AcceptanceRequirement, Bytes, LicenseMetadata, MediaType,
    ModelFile, ModelId, ModelManifest, ModelStoreError, RelativePath, SchemaVersion,
    Sha256Digest,
};

fn file(path: &str, content: &[u8]) -> ModelFile {
    ModelFile::new(
        RelativePath::new(path).unwrap(),
        Sha256Digest::of_bytes(content),
        Bytes::new(content.len() as u64),
        MediaType::new("application/octet-stream").unwrap(),
    )
    .unwrap()
}

fn manifest(acceptance: Option<AcceptanceRequirement>) -> ModelManifest {
    ModelManifest::new(
        SchemaVersion::new(1, 0),
        ModelId::derive(&[b"model"]),
        "rev-1",
        vec![file("weights.bin", b"weights"), file("vocab.txt", b"vocab")],
        LicenseMetadata { expression: "MIT".into(), source: "fixture".into(), notice: None },
        acceptance,
    )
    .unwrap()
}

fn source(path: &str, content: &[u8]) -> (RelativePath, Vec<u8>) {
    (RelativePath::new(path).unwrap(), content.to_vec())
}

#[test]
fn verified_sources_are_installable() {
    let sources = vec![source("vocab.txt", b"vocab"), source("weights.bin", b"weights")];
    assert!(check_install(&manifest(None), &sources, false).is_ok());
}

#[test]
fn unaccepted_or_corrupt_sources_are_refused() {
    let sources = vec![source("vocab.txt", b"vocab"), source("weights.bin", b"weights")];
    let gated = manifest(Some(AcceptanceRequirement::License { prompt: "accept".into() }));
    assert!(matches!(
        check_install(&gated, &sources, false),
        Err(ModelStoreError::AcceptanceRequired(_))
    ));
    assert!(check_install(&gated, &sources, true).is_ok());

    let short = vec![source("vocab.txt", b"vocab"), source("weights.bin", b"weight")];
    match check_install(&manifest(None), &short, false) {
        Err(ModelStoreError::Verification { logical_path, reason }) => {
            assert_eq!(logical_path.as_str(), "weights.bin");
            assert_eq!(reason, "expected 7 bytes, found 6");
        }
        other => panic!("expected a size refusal, got {other:?}"),
    }
    let tampered = vec![source("vocab.txt", b"vocab"), source("weights.bin", b"WEIGHTS")];
    match check_install(&manifest(None), &tampered, false) {
        Err(ModelStoreError::Verification { reason, .. }) => assert_eq!(
            reason,
            format!(
                "expected digest {}, found {}",
                Sha256Digest::of_bytes(b"weights").to_hex(),
                Sha256Digest::of_bytes(b"WEIGHTS").to_hex()
            )
        ),
        other => panic!("expected a digest refusal, got {other:?}"),
    }
}

#[test]
fn a_missing_file_refuses_the_whole_install() {
    let missing = vec![source("weights.bin", b"weights")];
    match check_install(&manifest(None), &missing, false) {
        Err(ModelStoreError::InvalidSource { logical_path, reason }) => {
            assert_eq!(logical_path.as_str(), "vocab.txt");
            assert_eq!(reason, "file is absent");
        }
        other => panic!("expected a missing-file refusal, got {other:?}"),
    }
    let path = RelativePath::new("a.bin").unwrap();
    assert!(verify_file(&path, 3, Sha256Digest::of_bytes(b"abc"), b"abc").is_ok());
    assert!(verify_file(&path, 4, Sha256Digest::of_bytes(b"abc"), b"abc").is_err());
}
