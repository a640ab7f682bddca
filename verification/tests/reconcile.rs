use ferrodoc::{
    reconcile_page, Evidence, EvidenceContent, EvidenceId, LayerId, LayoutItem, Placement,
    RegionId, RegionKind, SelectionReason, Sha256Digest,
};

fn digest() -> Sha256Digest {
    Sha256Digest::of_bytes(b"source pdf")
}

fn native_layer() -> LayerId {
    LayerId::derive(&[b"native"])
}

fn text_record(name: &str, text: &str, page: Option<u32>) -> Evidence {
    Evidence {
        id: EvidenceId::derive(&[name.as_bytes()]),
        layer_id: LayerId::derive(&[b"engine"]),
        content: EvidenceContent::Text { text: text.into() },
        geometry_page: page,
    }
}

fn item(evidence: Evidence, kind: Option<RegionKind>) -> LayoutItem {
    LayoutItem { evidence, kind, placement: Placement::Inside }
}

fn native_id(page: u32, index: u64, text: &str) -> EvidenceId {
    EvidenceId::derive(&[
        digest().as_bytes(),
        &page.to_be_bytes(),
        &index.to_be_bytes(),
        text.as_bytes(),
    ])
}

fn text(e: &Evidence) -> &str {
    match &e.content {
        EvidenceContent::Text { text } => text,
        _ => panic!("expected text evidence"),
    }
}

#[test]
fn ocr_that_covers_native_text_is_selected_and_native_evidence_stays() {
    let layout = vec![text_record("layout", "Heading", Some(3))];
    let ocr = vec![text_record("ocr", "the full native text here", Some(3))];
    let (regions, order) = reconcile_page(
        3,
        &digest(),
        &native_layer(),
        "native text",
        Some(layout.iter().cloned().map(|e| item(e, None)).collect()),
        Some(ocr.clone()),
        true,
    );
    assert_eq!(regions.len(), 1);
    assert!(order.is_empty());
    let region = &regions[0];
    assert_eq!(
        region.id,
        RegionId::derive(&[digest().as_bytes(), &3u32.to_be_bytes(), b"reconciled"])
    );
    assert_eq!(region.evidence.len(), 3);
    assert_eq!(region.evidence[0], layout[0]);
    assert_eq!(region.evidence[1].id, native_id(3, 0, "native text"));
    assert_eq!(text(&region.evidence[1]), "native text");
    assert_eq!(region.evidence[1].layer_id, native_layer());
    assert_eq!(region.evidence[2], ocr[0]);
    let selected = region.selected.as_ref().unwrap();
    assert_eq!(selected.evidence_ids, vec![ocr[0].id.clone()]);
    assert_eq!(selected.reason, SelectionReason::Reconciled);
    assert_eq!(
        selected.explanation,
        "OCR covered the low-quality native text; native evidence remains available separately"
    );
}

#[test]
fn ocr_that_does_not_cover_native_text_is_selected_after_it() {
    let ocr = vec![text_record("ocr", "something else", None)];
    let (regions, _) =
        reconcile_page(0, &digest(), &native_layer(), "native", None, Some(ocr.clone()), true);
    let selected = regions[0].selected.as_ref().unwrap();
    assert_eq!(selected.evidence_ids, vec![native_id(0, 0, "native"), ocr[0].id.clone()]);
    assert_eq!(selected.reason, SelectionReason::Reconciled);
}

#[test]
fn ocr_alone_is_selected_when_native_text_is_absent() {
    let ocr = vec![text_record("ocr", "scanned", None)];
    let (regions, _) = reconcile_page(0, &digest(), &native_layer(), "", None, Some(ocr.clone()), true);
    assert_eq!(regions[0].evidence, ocr);
    let selected = regions[0].selected.as_ref().unwrap();
    assert_eq!(selected.evidence_ids, vec![ocr[0].id.clone()]);
    assert_eq!(selected.reason, SelectionReason::NativeAbsent);
    assert_eq!(selected.explanation, "OCR selected because native evidence was absent");

    let (regions, _) = reconcile_page(0, &digest(), &native_layer(), "", None, None, true);
    assert_eq!(regions.len(), 1);
    assert!(regions[0].evidence.is_empty());
    assert!(regions[0].selected.is_none());
}

#[test]
fn text_layout_records_each_become_a_native_region() {
    let formula = Evidence {
        id: EvidenceId::derive(&[b"formula"]),
        layer_id: LayerId::derive(&[b"engine"]),
        content: EvidenceContent::Formula { latex: "x^2".into() },
        geometry_page: Some(5),
    };
    let heading = text_record("heading", "Title", None);
    let body = text_record("body", "Body text", Some(5));
    let (regions, order) = reconcile_page(
        5,
        &digest(),
        &native_layer(),
        "Title Body text",
        Some(vec![
            item(formula, None),
            item(heading.clone(), Some(RegionKind::Heading)),
            item(body.clone(), None),
        ]),
        None,
        false,
    );
    assert_eq!(regions.len(), 2);
    assert_eq!(
        regions[0].id,
        RegionId::derive(&[digest().as_bytes(), &5u32.to_be_bytes(), &1u64.to_be_bytes()])
    );
    assert_eq!(regions[0].kind, RegionKind::Heading);
    assert_eq!(regions[0].evidence[0].id, native_id(5, 1, "Title"));
    assert_eq!(regions[0].evidence[1], heading);
    assert_eq!(regions[1].kind, RegionKind::Paragraph);
    assert_eq!(regions[1].evidence[0].id, native_id(5, 2, "Body text"));
    assert_eq!(regions[1].evidence[1], body);
    for region in &regions {
        let selected = region.selected.as_ref().unwrap();
        assert_eq!(selected.evidence_ids, vec![region.evidence[0].id.clone()]);
        assert_eq!(selected.reason, SelectionReason::NativeQuality);
        assert_eq!(
            selected.explanation,
            "native evidence met the configured quality threshold"
        );
    }
    assert_eq!(order.len(), 1);
    assert_eq!(order[0].before, regions[0].id);
    assert_eq!(order[0].after, regions[1].id);
}

#[test]
fn native_text_without_layout_becomes_one_region() {
    let (regions, order) =
        reconcile_page(2, &digest(), &native_layer(), "plain page", None, None, false);
    assert_eq!(regions.len(), 1);
    assert_eq!(
        regions[0].id,
        RegionId::derive(&[digest().as_bytes(), &2u32.to_be_bytes()])
    );
    assert_eq!(regions[0].evidence.len(), 1);
    assert_eq!(regions[0].evidence[0].id, native_id(2, 0, "plain page"));
    assert_eq!(regions[0].evidence[0].geometry_page, Some(2));
    assert!(order.is_empty());

    let (regions, order) = reconcile_page(2, &digest(), &native_layer(), "", None, None, false);
    assert!(regions.is_empty());
    assert!(order.is_empty());
}
