use ferrodoc::{
    AcceptanceRequirement, Bytes, CoreError, LicenseMetadata, MediaType, ModelFile, ModelId,
    ModelManifest, RelativePath, SchemaVersion, Sha256Digest,
};

#[test]
fn relative_paths_reject_escape_and_platform_prefixes() {
    for input in [
        "", "/root", "../model", "a/../b", "a//b", "C:/model", "a\\b",
    ] {
        assert!(RelativePath::new(input).is_err(), "accepted {input:?}");
    }
    assert_eq!(
        RelativePath::new("weights/model.bin").unwrap().as_str(),
        "weights/model.bin"
    );
}

#[test]
fn relative_paths_allow_dotted_names_but_not_dot_segments() {
    for input in ["a/", "./a", "a/.", "a/./b", "..", ".", "a\0b"] {
        assert!(RelativePath::new(input).is_err(), "accepted {input:?}");
    }
    for input in ["a", ".hidden", "a/..b", "a/b..", "...", "v1.2/model.bin"] {
        assert_eq!(RelativePath::new(input).unwrap().as_str(), input);
    }
    assert!("x/y".parse::<RelativePath>().is_ok());
}

fn file(path: &str, bytes: u64) -> Result<ModelFile, CoreError> {
    ModelFile::new(
        RelativePath::new(path).unwrap(),
        Sha256Digest::of_bytes(path.as_bytes()),
        Bytes::new(bytes),
        MediaType::new("application/octet-stream").unwrap(),
    )
}

fn license() -> LicenseMetadata {
    LicenseMetadata {
        expression: "MIT".into(),
        source: "fixture".into(),
        notice: None,
    }
}

#[test]
fn model_files_must_be_nonempty() {
    assert!(matches!(
        file("a.bin", 0),
        Err(CoreError::InvalidText { kind: "model file size", .. })
    ));
    let f = file("a.bin", 3).unwrap();
    assert_eq!(f.path().as_str(), "a.bin");
    assert_eq!(f.bytes(), Bytes::new(3));
    assert_eq!(f.digest(), Sha256Digest::of_bytes(b"a.bin"));
    assert_eq!(f.media_type().as_str(), "application/octet-stream");
}

#[test]
fn manifests_validate_version_metadata_and_unique_paths() {
    let id = ModelId::derive(&[b"m"]);
    let ok = ModelManifest::new(
        SchemaVersion::new(1, 4),
        id.clone(),
        "rev-1",
        vec![file("a.bin", 1).unwrap(), file("b.bin", 2).unwrap()],
        license(),
        Some(AcceptanceRequirement::License { prompt: "accept".into() }),
    )
    .unwrap();
    assert_eq!(ok.schema_version(), SchemaVersion::new(1, 4));
    assert_eq!(ok.id(), &id);
    assert_eq!(ok.revision(), "rev-1");
    assert_eq!(ok.files().len(), 2);
    assert_eq!(ok.license().expression, "MIT");
    assert!(matches!(ok.acceptance(), Some(AcceptanceRequirement::License { .. })));

    let refused = |version: SchemaVersion, revision: &str, files: Vec<ModelFile>, license: LicenseMetadata| {
        ModelManifest::new(version, id.clone(), revision, files, license, None).unwrap_err()
    };
    assert_eq!(
        refused(SchemaVersion::new(2, 7), "r", vec![file("a", 1).unwrap()], license()),
        CoreError::InvalidText {
            kind: "model manifest schema",
            value: "2.7".into(),
            reason: "unsupported major version",
        }
    );
    assert!(matches!(
        refused(SchemaVersion::new(1, 0), "  \t", vec![file("a", 1).unwrap()], license()),
        CoreError::InvalidText { kind: "model revision", .. }
    ));
    assert!(matches!(
        refused(SchemaVersion::new(1, 0), "r", vec![], license()),
        CoreError::InvalidText { kind: "model files", .. }
    ));
    let mut blank = license();
    blank.source = " ".into();
    assert!(matches!(
        refused(SchemaVersion::new(1, 0), "r", vec![file("a", 1).unwrap()], blank),
        CoreError::InvalidText { kind: "model license", .. }
    ));
    assert_eq!(
        refused(
            SchemaVersion::new(1, 0),
            "r",
            vec![file("a", 1).unwrap(), file("b", 1).unwrap(), file("a", 2).unwrap()],
            license()
        ),
        CoreError::InvalidText {
            kind: "model files",
            value: "duplicate path".into(),
            reason: "logical paths must be unique",
        }
    );
}
