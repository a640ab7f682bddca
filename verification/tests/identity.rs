use ferrodoc::{DocumentId, ModelId, PageId, RegionId, RequestId, EvidenceId, Sha256Digest};

#[test]
fn ids_are_domain_separated_and_stable() {
    let first = DocumentId::derive(&[b"a", b"bc"]);
    let second = DocumentId::derive(&[b"ab", b"c"]);
    let page = PageId::derive(&[b"a", b"bc"]);
    assert_ne!(first, second);
    assert_ne!(first.as_str(), page.as_str());
    assert_eq!(first.to_string().parse::<DocumentId>().unwrap(), first);
    assert!(first.to_string().parse::<PageId>().is_err());
}

#[test]
fn derived_id_hashes_the_framed_preimage() {
    let mut preimage = b"doc\0".to_vec();
    preimage.extend_from_slice(&1u64.to_be_bytes());
    preimage.extend_from_slice(b"a");
    preimage.extend_from_slice(&2u64.to_be_bytes());
    preimage.extend_from_slice(b"bc");
    let expected = format!("doc_{}", Sha256Digest::of_bytes(&preimage).to_hex());
    assert_eq!(DocumentId::derive(&[b"a", b"bc"]).as_str(), expected);
    assert_eq!(DocumentId::derive(&[b"a", b"bc"]), DocumentId::derive(&[b"a", b"bc"]));
    let empty = format!("model_{}", Sha256Digest::of_bytes(b"model\0").to_hex());
    assert_eq!(ModelId::derive(&[]).as_str(), empty);
}

#[test]
fn id_parsing_checks_prefix_separator_and_digest() {
    let region = RegionId::derive(&[b"x"]);
    let text = region.to_string();
    assert_eq!(RegionId::parse(&text).unwrap().as_str(), text);
    assert!(RequestId::parse(&text).is_err());
    assert!(EvidenceId::parse("evidence").is_err());
    assert!(EvidenceId::parse("evidence_").is_err());
    assert!(EvidenceId::parse(&format!("evidence-{}", "0".repeat(64))).is_err());
    assert!(EvidenceId::parse(&format!("evidence_{}", "A".repeat(64))).is_err());
    assert!(EvidenceId::parse(&format!("evidence_{}", "a".repeat(64))).is_ok());
    assert!(matches!(
        EvidenceId::parse("evidenc_"),
        Err(ferrodoc::CoreError::InvalidText { kind: "stable ID", .. })
    ));
    assert!(matches!(
        EvidenceId::parse("evidence_xyz"),
        Err(ferrodoc::CoreError::InvalidText { kind: "SHA-256 digest", .. })
    ));
}
