use ferrodoc::{
    apply_delta, current_schema_version, DeltaProducer, Document, DocumentId, Evidence,
    EvidenceContent, EvidenceDelta, EvidenceId, IrError, LayerId, Page, PageDelta, PageId,
    PageRegionRef, Placement, RefinementScope, Region, RegionEvidenceAddition, RegionId,
    RegionKind, SelectedView, SelectionHint, SelectionReason, Sha256Digest, Stage,
    EVIDENCE_DELTA_SCHEMA,
};

fn page(doc: &DocumentId, index: u32, regions: &[&str]) -> Page {
    let id = PageId::derive(&[doc.as_str().as_bytes(), &index.to_be_bytes()]);
    let regions = regions
        .iter()
        .map(|name| Region {
            id: RegionId::derive(&[id.as_str().as_bytes(), name.as_bytes()]),
            kind: RegionKind::Paragraph,
            geometry_page: index,
            placement: Placement::Inside,
            evidence: Vec::new(),
            selected: None,
        })
        .collect();
    Page {
        id,
        index,
        bounds_page: index,
        layers: Vec::new(),
        artifacts: Vec::new(),
        regions,
        reading_order: Vec::new(),
    }
}

fn document() -> Document {
    let input_digest = Sha256Digest::of_bytes(b"source");
    let id = DocumentId::derive(&[input_digest.as_bytes()]);
    let pages = vec![page(&id, 0, &["a", "b"]), page(&id, 1, &[])];
    Document { schema_version: current_schema_version(), id, input_digest, pages }
}

fn delta(doc: &Document) -> EvidenceDelta {
    EvidenceDelta {
        delta_schema: EVIDENCE_DELTA_SCHEMA.into(),
        source_pdf_sha256: doc.input_digest,
        ir_schema: doc.schema_version,
        stage: Stage::NativeExtract,
        producer: DeltaProducer {
            name: "native".into(),
            version: "1.0.0".into(),
            build: Sha256Digest::of_bytes(b"build"),
            model_digest: None,
            configuration_digest: Sha256Digest::of_bytes(b"config"),
        },
        scope: RefinementScope::Document,
        input_state_id: None,
        required_evidence_ids: Vec::new(),
        new_pages: Vec::new(),
        page_additions: Vec::new(),
        selection_hints: Vec::new(),
        diagnostics: Vec::new(),
        coverage_delta: Vec::new(),
    }
}

fn addition(page_id: &PageId) -> PageDelta {
    PageDelta {
        page_id: page_id.clone(),
        source_layers: Vec::new(),
        render_artifacts: Vec::new(),
        regions: Vec::new(),
        region_evidence: Vec::new(),
        reading_order_edges: Vec::new(),
    }
}

fn evidence(name: &str, text: &str) -> Evidence {
    Evidence {
        id: EvidenceId::derive(&[name.as_bytes()]),
        layer_id: LayerId::derive(&[b"layer"]),
        content: EvidenceContent::Text { text: text.into() },
        geometry_page: Some(0),
    }
}

fn view(name: &str) -> SelectedView {
    SelectedView {
        evidence_ids: vec![EvidenceId::derive(&[name.as_bytes()])],
        reason: SelectionReason::NativeQuality,
        explanation: name.into(),
    }
}

fn hint(doc: &Document, page: usize, region: usize, selected: SelectedView) -> SelectionHint {
    SelectionHint {
        region: PageRegionRef {
            page_id: doc.pages[page].id.clone(),
            region_id: doc.pages[page].regions[region].id.clone(),
        },
        selected,
    }
}

fn refusal(result: Result<(), IrError>) -> String {
    match result {
        Err(IrError::Invalid(message)) => message,
        Ok(()) => panic!("expected a refusal"),
    }
}

#[test]
fn an_empty_delta_changes_nothing() {
    let mut doc = document();
    let before = doc.clone();
    let d = delta(&doc);
    assert!(apply_delta(&mut doc, d).is_ok());
    assert_eq!(doc, before);
}

#[test]
fn new_pages_are_appended_in_order() {
    let mut doc = document();
    let extra = page(&doc.id, 2, &["c"]);
    let mut d = delta(&doc);
    d.new_pages = vec![extra.clone()];
    assert!(apply_delta(&mut doc, d).is_ok());
    assert_eq!(doc.pages.len(), 3);
    assert_eq!(doc.pages[2], extra);
}

#[test]
fn a_delta_cannot_replace_a_page() {
    let mut doc = document();
    let before = doc.clone();
    let extra = page(&doc.id, 2, &[]);
    let mut d = delta(&doc);
    d.new_pages = vec![extra.clone(), doc.pages[0].clone()];
    assert_eq!(refusal(apply_delta(&mut doc, d)), "delta attempts to replace a page");
    // The page added before the refusal stays; the existing page is untouched.
    assert_eq!(doc.pages.len(), 3);
    assert_eq!(doc.pages[0], before.pages[0]);
    assert_eq!(doc.pages[2], extra);
}

#[test]
fn evidence_is_appended_after_what_a_region_held() {
    let mut doc = document();
    doc.pages[0].regions[0].evidence.push(evidence("old", "kept"));
    let mut d = delta(&doc);
    let mut a = addition(&doc.pages[0].id);
    a.region_evidence = vec![RegionEvidenceAddition {
        region_id: doc.pages[0].regions[0].id.clone(),
        evidence: vec![evidence("new", "added")],
    }];
    d.page_additions = vec![a];
    assert!(apply_delta(&mut doc, d).is_ok());
    let held = &doc.pages[0].regions[0].evidence;
    assert_eq!(held.len(), 2);
    assert_eq!(held[0], evidence("old", "kept"));
    assert_eq!(held[1], evidence("new", "added"));
}

#[test]
fn evidence_for_an_absent_region_is_refused() {
    let mut doc = document();
    let mut d = delta(&doc);
    let mut a = addition(&doc.pages[1].id);
    a.region_evidence = vec![RegionEvidenceAddition {
        region_id: RegionId::derive(&[b"nowhere"]),
        evidence: vec![evidence("new", "added")],
    }];
    d.page_additions = vec![a];
    assert_eq!(refusal(apply_delta(&mut doc, d)), "evidence owner region is absent");
}

#[test]
fn an_addition_to_an_absent_page_is_refused() {
    let mut doc = document();
    let mut d = delta(&doc);
    d.page_additions = vec![addition(&PageId::derive(&[b"elsewhere"]))];
    assert_eq!(refusal(apply_delta(&mut doc, d)), "delta page addition target is absent");
}

#[test]
fn a_selection_is_set_once_and_a_conflicting_one_is_refused() {
    let mut doc = document();
    let mut d = delta(&doc);
    d.selection_hints = vec![hint(&doc, 0, 1, view("first"))];
    assert!(apply_delta(&mut doc, d).is_ok());
    assert_eq!(doc.pages[0].regions[1].selected, Some(view("first")));

    // The same selection again is accepted.
    let mut d = delta(&doc);
    d.selection_hints = vec![hint(&doc, 0, 1, view("first"))];
    assert!(apply_delta(&mut doc, d).is_ok());

    let mut d = delta(&doc);
    d.selection_hints = vec![hint(&doc, 0, 1, view("second"))];
    assert_eq!(
        refusal(apply_delta(&mut doc, d)),
        "conflicting selection hints require a different reconciliation policy"
    );
    assert_eq!(doc.pages[0].regions[1].selected, Some(view("first")));
}

#[test]
fn prechecks_refuse_before_anything_changes() {
    let mut doc = document();
    let before = doc.clone();

    let mut d = delta(&doc);
    d.source_pdf_sha256 = Sha256Digest::of_bytes(b"other");
    d.new_pages = vec![page(&doc.id, 2, &[])];
    assert_eq!(
        refusal(apply_delta(&mut doc, d)),
        "delta source or IR schema differs from the document"
    );
    assert_eq!(doc, before);

    let mut d = delta(&doc);
    d.required_evidence_ids = vec![EvidenceId::derive(&[b"missing"])];
    assert_eq!(
        refusal(apply_delta(&mut doc, d)),
        "delta required evidence is absent from the input document"
    );

    let mut d = delta(&doc);
    d.scope = RefinementScope::Pages { page_ids: vec![doc.pages[1].id.clone()] };
    d.new_pages = vec![page(&doc.id, 2, &[])];
    assert_eq!(
        refusal(apply_delta(&mut doc, d)),
        "only a document-scoped delta may introduce pages"
    );

    let mut d = delta(&doc);
    d.scope = RefinementScope::Pages { page_ids: vec![doc.pages[1].id.clone()] };
    d.page_additions = vec![addition(&doc.pages[0].id)];
    assert_eq!(
        refusal(apply_delta(&mut doc, d)),
        "page addition lies outside the declared refinement scope"
    );
    assert_eq!(doc, before);
}
