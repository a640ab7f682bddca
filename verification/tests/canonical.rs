use ferrodoc::{
    Capability, DeviceId, DeviceKind, MediaType, RelativePath, ResourceEstimate, Sha256Digest,
};

#[test]
fn capability_representations_are_identical() {
    for capability in [
        Capability::DocumentOpen,
        Capability::PageRender,
        Capability::TextExtract,
        Capability::LayoutDetect,
        Capability::ReadingOrderDetect,
        Capability::OcrPage,
        Capability::OcrRegion,
        Capability::TableRecognize,
        Capability::FormulaRecognize,
        Capability::QualityScore,
    ] {
        let text = capability.to_string();
        assert_eq!(text.parse::<Capability>().unwrap(), capability);
        assert_eq!(
            serde_json::to_string(&capability.to_string()).unwrap(),
            format!("\"{text}\"")
        );
    }
    assert!("ocr".parse::<Capability>().is_err());
    assert_eq!(Capability::parse_cli("ocr").unwrap(), Capability::OcrPage);
}

#[test]
fn devices_do_not_mix_remote_or_hybrid_placement() {
    for text in ["cpu", "metal", "cuda:0", "vulkan:3", "wgpu:1"] {
        let device: DeviceId = text.parse().unwrap();
        assert_eq!(device.to_string(), text);
        let json = serde_json::to_string(text).unwrap();
        let read: String = serde_json::from_str(&json).unwrap();
        assert_eq!(read.parse::<DeviceId>().unwrap(), device);
    }
    assert!("remote".parse::<DeviceId>().is_err());
    assert!("hybrid".parse::<DeviceId>().is_err());
    assert!(DeviceId::new(DeviceKind::Cpu, Some(0)).is_err());
}

#[test]
fn media_types_normalize_once() {
    let media = MediaType::new("Application/PDF").unwrap();
    assert_eq!(media.as_str(), "application/pdf");
    assert_eq!(
        serde_json::to_string(media.as_str()).unwrap(),
        "\"application/pdf\""
    );
    assert!(MediaType::new("application/pdf; charset=utf-8").is_err());
}

#[test]
fn digest_parsing_is_typed_and_canonical() {
    let digest = Sha256Digest::of_bytes(b"ferrodoc");
    assert_eq!(digest.to_string().parse::<Sha256Digest>().unwrap(), digest);
    assert!("00".parse::<Sha256Digest>().is_err());
    assert!(
        digest
            .to_string()
            .to_ascii_uppercase()
            .parse::<Sha256Digest>()
            .is_err()
    );
}

#[test]
fn relative_path_deserialization_validates() {
    let text: String = serde_json::from_str("\"../secret\"").unwrap();
    assert!(text.parse::<RelativePath>().is_err());
}

#[test]
fn defaults_serialize_as_unknown_not_zero() {
    let estimate = ResourceEstimate::default();
    assert!(estimate.peak_ram.is_unknown());
    assert!(estimate.warm_ram.is_unknown());
    assert!(estimate.peak_vram.is_unknown());
    assert!(estimate.warm_vram.is_unknown());
    assert!(estimate.latency.is_unknown());
    assert!(estimate.remote_cost.is_unknown());
    assert!(estimate.quality.is_unknown());
    assert!(estimate.source.is_unknown());
}
