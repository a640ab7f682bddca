use ferrodoc::{
    current_schema_version, ArtifactId, BlobId, Document, DocumentId, Evidence, EvidenceContent, EvidenceId,
    IrError, LayerId, MediaType, Page, PageId, Placement, ReadingOrderEdge, Region, RegionId,
    RegionKind, RenderArtifact, SchemaVersion, SelectedView, SelectionReason, Sha256Digest,
    SourceLayer, SourceLayerKind,
};

fn fixture() -> Document {
    let input_digest = Sha256Digest::of_bytes(b"fixture-pdf");
    let document_id = DocumentId::derive(&[input_digest.as_bytes()]);
    let page_id = PageId::derive(&[document_id.as_str().as_bytes(), &0_u32.to_be_bytes()]);
    let native_layer = LayerId::derive(&[page_id.as_str().as_bytes(), b"native"]);
    let ocr_layer = LayerId::derive(&[page_id.as_str().as_bytes(), b"ocr"]);
    let region_id = RegionId::derive(&[page_id.as_str().as_bytes(), b"region-0"]);
    let native_evidence = EvidenceId::derive(&[region_id.as_str().as_bytes(), b"native"]);
    let ocr_evidence = EvidenceId::derive(&[region_id.as_str().as_bytes(), b"ocr"]);
    Document {
        schema_version: current_schema_version(),
        id: document_id,
        input_digest,
        pages: vec![Page {
            id: page_id,
            index: 0,
            bounds_page: 0,
            layers: vec![
                SourceLayer {
                    id: native_layer.clone(),
                    kind: SourceLayerKind::NativePdf,
                },
                SourceLayer {
                    id: ocr_layer.clone(),
                    kind: SourceLayerKind::Ocr,
                },
            ],
            artifacts: Vec::new(),
            regions: vec![Region {
                id: region_id,
                kind: RegionKind::Heading,
                geometry_page: 0,
                placement: Placement::Inside,
                evidence: vec![
                    Evidence {
                        id: native_evidence.clone(),
                        layer_id: native_layer,
                        content: EvidenceContent::Text {
                            text: "Native title".into(),
                        },
                        geometry_page: Some(0),
                    },
                    Evidence {
                        id: ocr_evidence,
                        layer_id: ocr_layer,
                        content: EvidenceContent::Text {
                            text: "OCR title".into(),
                        },
                        geometry_page: Some(0),
                    },
                ],
                selected: Some(SelectedView {
                    evidence_ids: vec![native_evidence],
                    reason: SelectionReason::NativeQuality,
                    explanation: "native evidence passed the threshold".into(),
                }),
            }],
            reading_order: Vec::new(),
        }],
    }
}

fn message(document: &Document) -> String {
    match document.validate() {
        Err(IrError::Invalid(message)) => message,
        Ok(()) => panic!("document was accepted"),
    }
}

#[test]
fn native_and_ocr_evidence_remain_distinct() {
    let document = fixture();
    document.validate().unwrap();
    let region = &document.pages[0].regions[0];
    assert_eq!(region.evidence.len(), 2);
    assert_ne!(region.evidence[0].layer_id, region.evidence[1].layer_id);
    assert_eq!(region.selected.as_ref().unwrap().evidence_ids.len(), 1);
}

#[test]
fn reading_order_cycles_are_rejected() {
    let mut document = fixture();
    let page = &mut document.pages[0];
    let first = page.regions[0].id.clone();
    let second = RegionId::derive(&[page.id.as_str().as_bytes(), b"region-1"]);
    let mut region = page.regions[0].clone();
    region.id = second.clone();
    region.evidence.clear();
    region.selected = None;
    page.regions.push(region);
    page.reading_order = vec![
        ReadingOrderEdge {
            before: first.clone(),
            after: second.clone(),
        },
        ReadingOrderEdge {
            before: second,
            after: first,
        },
    ];
    assert!(document.validate().is_err());
    assert_eq!(message(&document), "reading-order graph contains a cycle");
}

#[test]
fn invalid_selected_reference_is_rejected() {
    let mut document = fixture();
    document.pages[0].regions[0]
        .selected
        .as_mut()
        .unwrap()
        .evidence_ids = vec![EvidenceId::derive(&[b"missing"])];
    assert!(document.validate().is_err());
    assert_eq!(message(&document), "selected view references missing evidence");
}

fn with_regions(count: usize, edges: &[(usize, usize)]) -> Document {
    let mut document = fixture();
    let page = &mut document.pages[0];
    let template = page.regions[0].clone();
    page.regions.clear();
    let ids: Vec<RegionId> = (0..count)
        .map(|i| RegionId::derive(&[page.id.as_str().as_bytes(), i.to_string().as_bytes()]))
        .collect();
    for id in &ids {
        let mut region = template.clone();
        region.id = id.clone();
        region.evidence.clear();
        region.selected = None;
        page.regions.push(region);
    }
    page.reading_order = edges
        .iter()
        .map(|&(b, a)| ReadingOrderEdge {
            before: ids[b].clone(),
            after: ids[a].clone(),
        })
        .collect();
    document
}

#[test]
fn reading_order_accepts_dags_and_rejects_longer_cycles() {
    assert!(with_regions(4, &[(0, 1), (1, 2), (0, 2), (2, 3), (0, 3)]).validate().is_ok());
    assert!(with_regions(4, &[(3, 2), (2, 1), (1, 0), (3, 0), (3, 0)]).validate().is_ok());
    assert_eq!(
        message(&with_regions(4, &[(0, 1), (1, 2), (2, 3), (3, 1)])),
        "reading-order graph contains a cycle"
    );
    assert_eq!(
        message(&with_regions(3, &[(0, 0)])),
        "invalid reading-order edge"
    );
    let mut dangling = with_regions(2, &[(0, 1)]);
    dangling.pages[0].reading_order[0].after = RegionId::derive(&[b"elsewhere"]);
    assert_eq!(message(&dangling), "invalid reading-order edge");
}

#[test]
fn page_and_region_checks_report_in_order() {
    let mut document = fixture();
    document.schema_version = SchemaVersion::new(2, 0);
    assert_eq!(message(&document), "unsupported IR schema major version");

    let mut document = fixture();
    let page = document.pages[0].clone();
    document.pages.push(page);
    assert_eq!(message(&document), "duplicate page ID or index");

    let mut document = fixture();
    document.pages[0].bounds_page = 1;
    assert_eq!(message(&document), "page bounds use a different page index");

    let mut document = fixture();
    let layer = document.pages[0].layers[0].clone();
    document.pages[0].layers.push(layer);
    assert_eq!(message(&document), "duplicate source layer ID");

    let mut document = fixture();
    document.pages[0].regions[0].geometry_page = 3;
    assert_eq!(message(&document), "region geometry uses a different page index");

    let mut document = fixture();
    document.pages[0].regions[0].placement = Placement::Outside;
    assert_eq!(message(&document), "region lies outside page bounds");

    let mut document = fixture();
    document.pages[0].regions[0].placement =
        Placement::Incomparable("coordinate spaces differ".into());
    assert_eq!(message(&document), "coordinate spaces differ");

    let mut document = fixture();
    let evidence = document.pages[0].regions[0].evidence[0].clone();
    document.pages[0].regions[0].evidence.push(evidence);
    assert_eq!(message(&document), "duplicate evidence ID");

    let mut document = fixture();
    document.pages[0].regions[0].evidence[1].layer_id = LayerId::derive(&[b"other"]);
    assert_eq!(message(&document), "evidence references an unknown layer");

    let mut document = fixture();
    document.pages[0].regions[0].evidence[1].geometry_page = Some(9);
    assert_eq!(message(&document), "evidence geometry uses a different page index");

    let mut document = fixture();
    document.pages[0].regions[0].evidence[1].content = EvidenceContent::Image {
        artifact: ArtifactId::derive(&[b"img"]),
        alt: None,
    };
    assert_eq!(message(&document), "image evidence references an unknown artifact");
    document.pages[0].artifacts.push(RenderArtifact {
        id: ArtifactId::derive(&[b"img"]),
        blob_id: BlobId::new("raster-0").unwrap(),
        digest: Sha256Digest::of_bytes(b"img"),
        media_type: MediaType::new("image/png").unwrap(),
        width: Some(10),
        height: Some(10),
    });
    assert!(document.validate().is_ok());

    let mut document = fixture();
    document.pages[0].regions[0].selected.as_mut().unwrap().evidence_ids.clear();
    assert_eq!(message(&document), "selected view references missing evidence");
}
