use std::collections::BTreeSet;

use ferrodoc::{
    atomic_scopes, coverage_complete, current_schema_version, pareto_front, plan_combinations,
    plan_dominates, plan_frontier, plan_metrics, scope_page_index, validate_request, BlobId,
    BlobRange,
    CapabilityGoal, DocumentStateManifest, EnrichmentRequest, MediaType, RequestId, ScopedBlob,
    DOCUMENT_STATE_SCHEMA, MAX_PARETO_PLANS,
    scope_covers, scope_label, validate_scope, BackendId, Bytes, Capability, CoverageEntry,
    DeltaDiagnostic, DeltaProducer, DeviceId, DeviceKind, Document, DocumentId, DocumentStateId,
    EngineCandidate, Estimate, EvidenceDelta, IrError, MicroUsd, Millis, Page, PageDelta, PageId,
    PageRegionRef, Placement, RefinementScope, Region, RegionId, RegionKind,
    RegionRefinementTarget, ResourceEstimate, RuntimeError, Sha256Digest, Stage,
    EVIDENCE_DELTA_SCHEMA,
};

fn page(doc: &DocumentId, index: u32, regions: &[&str]) -> Page {
    let id = PageId::derive(&[doc.as_str().as_bytes(), &index.to_be_bytes()]);
    let regions = regions
        .iter()
        .map(|name| Region {
            id: RegionId::derive(&[id.as_str().as_bytes(), name.as_bytes()]),
            kind: RegionKind::Paragraph,
            geometry_page: index,
            placement: Placement::Inside,
            evidence: Vec::new(),
            selected: None,
        })
        .collect();
    Page {
        id,
        index,
        bounds_page: index,
        layers: Vec::new(),
        artifacts: Vec::new(),
        regions,
        reading_order: Vec::new(),
    }
}

fn document() -> Document {
    let input_digest = Sha256Digest::of_bytes(b"source");
    let id = DocumentId::derive(&[input_digest.as_bytes()]);
    let pages = vec![page(&id, 0, &["a", "b"]), page(&id, 1, &[])];
    Document { schema_version: current_schema_version(), id, input_digest, pages }
}

fn producer() -> DeltaProducer {
    DeltaProducer {
        name: "native".into(),
        version: "1.0.0".into(),
        build: Sha256Digest::of_bytes(b"build"),
        model_digest: None,
        configuration_digest: Sha256Digest::of_bytes(b"config"),
    }
}

fn delta(doc: &Document) -> EvidenceDelta {
    EvidenceDelta {
        delta_schema: EVIDENCE_DELTA_SCHEMA.into(),
        source_pdf_sha256: doc.input_digest,
        ir_schema: doc.schema_version,
        stage: Stage::NativeExtract,
        producer: producer(),
        scope: RefinementScope::Document,
        input_state_id: None,
        required_evidence_ids: Vec::new(),
        new_pages: Vec::new(),
        page_additions: Vec::new(),
        selection_hints: Vec::new(),
        diagnostics: Vec::new(),
        coverage_delta: Vec::new(),
    }
}

fn addition(page_id: &PageId) -> PageDelta {
    PageDelta {
        page_id: page_id.clone(),
        source_layers: Vec::new(),
        render_artifacts: Vec::new(),
        regions: Vec::new(),
        region_evidence: Vec::new(),
        reading_order_edges: Vec::new(),
    }
}

fn invalid(result: Result<(), IrError>) -> String {
    match result {
        Err(IrError::Invalid(message)) => message,
        Ok(()) => panic!("expected a refusal"),
    }
}

#[test]
fn delta_envelope_rules_are_checked_in_order() {
    let doc = document();
    assert!(delta(&doc).validate_envelope().is_ok());

    let mut d = delta(&doc);
    d.delta_schema = "ferrodoc-evidence-delta/2".into();
    assert_eq!(invalid(d.validate_envelope()), "unsupported evidence-delta schema");

    let mut d = delta(&doc);
    d.producer.version = "  ".into();
    assert_eq!(
        invalid(d.validate_envelope()),
        "delta producer, diagnostic, or coverage identity is empty"
    );
    let mut d = delta(&doc);
    d.diagnostics.push(DeltaDiagnostic { code: "\t".into(), message: "x".into() });
    assert_eq!(
        invalid(d.validate_envelope()),
        "delta producer, diagnostic, or coverage identity is empty"
    );
    let mut d = delta(&doc);
    d.coverage_delta.push(CoverageEntry {
        capability: Capability::TextExtract,
        scope: RefinementScope::Document,
        status: "".into(),
    });
    assert_eq!(
        invalid(d.validate_envelope()),
        "delta producer, diagnostic, or coverage identity is empty"
    );

    let mut d = delta(&doc);
    d.new_pages = vec![doc.pages[0].clone(), doc.pages[1].clone(), doc.pages[0].clone()];
    assert_eq!(invalid(d.validate_envelope()), "delta contains duplicate new pages");

    let mut d = delta(&doc);
    d.page_additions = vec![addition(&doc.pages[1].id), addition(&doc.pages[1].id)];
    assert_eq!(invalid(d.validate_envelope()), "delta contains duplicate page additions");
}

#[test]
fn refinement_targets_must_resolve_on_their_page() {
    let doc = document();
    let state = DocumentStateId::derive(&[b"state"]);
    let target = RegionRefinementTarget {
        base_document_state_id: state.clone(),
        page_id: doc.pages[0].id.clone(),
        region_id: doc.pages[0].regions[1].id.clone(),
        requested_capabilities: BTreeSet::from([Capability::TableRecognize]),
    };
    assert!(target.validate(&doc, &state).is_ok());

    let other = DocumentStateId::derive(&[b"other"]);
    assert_eq!(
        invalid(target.validate(&doc, &other)),
        "refinement target has the wrong base state or no capabilities"
    );
    let mut t = target.clone();
    t.requested_capabilities.clear();
    assert_eq!(
        invalid(t.validate(&doc, &state)),
        "refinement target has the wrong base state or no capabilities"
    );
    let mut t = target.clone();
    t.page_id = PageId::derive(&[b"absent"]);
    assert_eq!(invalid(t.validate(&doc, &state)), "refinement target page is absent");
    let mut t = target.clone();
    t.page_id = doc.pages[1].id.clone();
    assert_eq!(
        invalid(t.validate(&doc, &state)),
        "refinement target region is absent from the qualified page"
    );
}

fn region_ref(doc: &Document, page: usize, region: usize) -> PageRegionRef {
    PageRegionRef {
        page_id: doc.pages[page].id.clone(),
        region_id: doc.pages[page].regions[region].id.clone(),
    }
}

#[test]
fn scopes_cover_and_resolve() {
    let doc = document();
    let p0 = doc.pages[0].id.clone();
    let p1 = doc.pages[1].id.clone();
    let pages = RefinementScope::Pages { page_ids: vec![p0.clone(), p1.clone()] };
    let first = RefinementScope::Pages { page_ids: vec![p0.clone()] };
    let regions = RefinementScope::Regions { regions: vec![region_ref(&doc, 0, 1)] };
    assert!(scope_covers(&RefinementScope::Document, &regions));
    assert!(scope_covers(&pages, &first));
    assert!(!scope_covers(&first, &pages));
    assert!(scope_covers(&first, &regions));
    assert!(scope_covers(&regions, &regions));
    assert!(!scope_covers(&regions, &first));
    assert!(!scope_covers(&pages, &RefinementScope::Document));

    let coverage = vec![
        CoverageEntry { capability: Capability::OcrPage, scope: pages.clone(), status: "partial".into() },
        CoverageEntry { capability: Capability::OcrPage, scope: first.clone(), status: "complete".into() },
    ];
    assert!(coverage_complete(&coverage, Capability::OcrPage, &regions));
    assert!(!coverage_complete(&coverage, Capability::OcrPage, &pages));
    assert!(!coverage_complete(&coverage, Capability::TableRecognize, &regions));

    assert!(validate_scope(&pages, &doc).is_ok());
    assert!(validate_scope(&regions, &doc).is_ok());
    let enrichment = |r: Result<(), RuntimeError>| match r {
        Err(RuntimeError::InvalidEnrichment(m)) => m,
        other => panic!("expected an enrichment refusal, got {other:?}"),
    };
    assert_eq!(
        enrichment(validate_scope(&RefinementScope::Pages { page_ids: vec![] }, &doc)),
        "page scope is empty"
    );
    assert_eq!(
        enrichment(validate_scope(
            &RefinementScope::Pages { page_ids: vec![PageId::derive(&[b"x"])] },
            &doc
        )),
        "page scope contains an absent page"
    );
    assert_eq!(
        enrichment(validate_scope(&RefinementScope::Regions { regions: vec![] }, &doc)),
        "region scope is empty"
    );
    let mut stray = region_ref(&doc, 0, 0);
    stray.page_id = p1.clone();
    assert_eq!(
        enrichment(validate_scope(&RefinementScope::Regions { regions: vec![stray] }, &doc)),
        "region scope contains an absent region on its qualified page"
    );
    let mut lost = region_ref(&doc, 0, 0);
    lost.page_id = PageId::derive(&[b"gone"]);
    assert_eq!(
        enrichment(validate_scope(&RefinementScope::Regions { regions: vec![lost] }, &doc)),
        "region scope contains an absent containing page"
    );

    let atoms = atomic_scopes(&pages);
    assert_eq!(
        atoms,
        vec![
            RefinementScope::Pages { page_ids: vec![p0] },
            RefinementScope::Pages { page_ids: vec![p1] }
        ]
    );
    assert_eq!(atomic_scopes(&RefinementScope::Document), vec![RefinementScope::Document]);
    assert_eq!(scope_label(&regions), "page-qualified region");
    assert_eq!(scope_label(&first), "page");
    assert_eq!(scope_label(&RefinementScope::Document), "document");
}

fn candidate(ram: Option<u64>, latency: Option<u64>, quality: Option<u64>) -> EngineCandidate {
    let known = |v: Option<u64>| v.map_or(Estimate::Unknown, |b| Estimate::Known(Bytes::new(b)));
    EngineCandidate {
        engine_id: "engine".into(),
        backend: BackendId::new("cpu-backend").unwrap(),
        device: DeviceId::new(DeviceKind::Cpu, None).unwrap(),
        resources: ResourceEstimate {
            peak_ram: known(ram),
            warm_ram: Estimate::Known(Bytes::new(0)),
            peak_vram: Estimate::Known(Bytes::new(0)),
            warm_vram: Estimate::Known(Bytes::new(0)),
            latency: latency.map_or(Estimate::Unknown, |m| Estimate::Known(Millis::new(m))),
            remote_cost: Estimate::Known(MicroUsd::new(0)),
            quality: quality.map_or(Estimate::Unknown, Estimate::Known),
            source: Estimate::Unknown,
        },
    }
}

#[test]
fn plan_metrics_aggregate_and_dominance_is_strict() {
    let a = vec![candidate(Some(5), Some(10), Some(7)), candidate(Some(9), Some(20), Some(3))];
    let m = plan_metrics(&a);
    assert_eq!(m.peak_ram, Some(9));
    assert_eq!(m.latency, Some(30));
    assert_eq!(m.quality, Some(3));
    let unknown = vec![candidate(None, Some(10), Some(7))];
    assert_eq!(plan_metrics(&unknown).peak_ram, None);
    assert_eq!(plan_metrics(&[]).latency, Some(0));
    assert_eq!(plan_metrics(&[]).quality, None);

    let cheap = vec![candidate(Some(1), Some(10), Some(5))];
    let costly = vec![candidate(Some(2), Some(10), Some(5))];
    assert!(plan_dominates(&cheap, &costly));
    assert!(!plan_dominates(&costly, &cheap));
    assert!(!plan_dominates(&cheap, &cheap));
    let better_quality = vec![candidate(Some(2), Some(10), Some(6))];
    assert!(!plan_dominates(&cheap, &better_quality));
    assert!(!plan_dominates(&better_quality, &cheap));
    assert!(!plan_dominates(&unknown, &costly));
}

#[test]
fn pareto_front_drops_only_dominated_plans() {
    let cheap = vec![candidate(Some(1), Some(10), Some(5))];
    let costly = vec![candidate(Some(2), Some(10), Some(5))];
    let better_quality = vec![candidate(Some(2), Some(10), Some(6))];
    let unknown = vec![candidate(None, Some(10), Some(5))];
    let plans = vec![costly, cheap, better_quality, unknown];
    assert_eq!(pareto_front(&plans), vec![1, 2, 3]);
    assert_eq!(pareto_front(&vec![]), Vec::<usize>::new());
}

#[test]
fn combinations_are_lexicographic_and_capped() {
    assert_eq!(plan_combinations(&vec![]), vec![Vec::<usize>::new()]);
    assert_eq!(
        plan_combinations(&vec![2, 3]),
        vec![
            vec![0, 0],
            vec![0, 1],
            vec![0, 2],
            vec![1, 0],
            vec![1, 1],
            vec![1, 2],
        ]
    );
    assert!(plan_combinations(&vec![2, 0, 3]).is_empty());
    let many = plan_combinations(&vec![10, 10, 10]);
    assert_eq!(many.len(), MAX_PARETO_PLANS);
    assert_eq!(many[0], vec![0, 0, 0]);
    assert_eq!(many[63], vec![0, 6, 3]);
    let wide = plan_combinations(&vec![100]);
    assert_eq!(wide.len(), MAX_PARETO_PLANS);
    assert_eq!(wide[63], vec![63]);
}

#[test]
fn frontier_keeps_nondominated_combinations_in_order() {
    let first_goal = vec![
        candidate(Some(1), Some(10), Some(5)),
        candidate(Some(2), Some(10), Some(5)),
    ];
    let second_goal = vec![
        candidate(Some(0), Some(10), Some(5)),
        candidate(Some(0), Some(5), Some(4)),
    ];
    // Combination [0, x] beats [1, x] on peak memory; [0, 0] and [0, 1] trade
    // latency against quality.
    assert_eq!(
        plan_frontier(&vec![first_goal.clone(), second_goal.clone()]),
        vec![vec![0, 0], vec![0, 1]]
    );
    assert_eq!(plan_frontier(&vec![first_goal, Vec::new()]), Vec::<Vec<usize>>::new());
    assert_eq!(plan_frontier(&vec![]), vec![Vec::<usize>::new()]);
}

fn manifest(doc: &Document) -> DocumentStateManifest {
    DocumentStateManifest {
        state_schema: DOCUMENT_STATE_SCHEMA.into(),
        source_pdf_sha256: doc.input_digest,
        ir_schema: doc.schema_version,
        evidence_delta_ids: Vec::new(),
        reconciliation_policy_id: Sha256Digest::of_bytes(b"policy"),
        coverage: Vec::new(),
        materialized_ir_checkpoint: None,
        parent_state_ids: Vec::new(),
    }
}

fn request(doc: &Document, state: &DocumentStateId, goals: Vec<CapabilityGoal>) -> EnrichmentRequest {
    EnrichmentRequest {
        request_id: RequestId::derive(&[b"request"]),
        source: ScopedBlob {
            id: BlobId::new("source").unwrap(),
            range: BlobRange::new(0, 6).unwrap(),
            media_type: MediaType::new("application/pdf").unwrap(),
            expected_digest: Some(doc.input_digest),
        },
        input_state_id: state.clone(),
        goals,
    }
}

fn enrichment_message(result: Result<(), RuntimeError>) -> String {
    match result {
        Err(RuntimeError::InvalidEnrichment(message)) => message,
        other => panic!("expected an enrichment refusal, got {other:?}"),
    }
}

#[test]
fn enrichment_requests_must_agree_with_the_pinned_state() {
    let doc = document();
    let state = DocumentStateId::derive(&[b"state"]);
    let goal = |scope| CapabilityGoal { capability: Capability::TableRecognize, scope };
    let m = manifest(&doc);
    let ok = request(&doc, &state, vec![goal(RefinementScope::Document)]);
    assert!(validate_request(&ok, &doc, &m, &state).is_ok());

    let mut wrong_schema = manifest(&doc);
    wrong_schema.state_schema = "ferrodoc-document-state/2".into();
    match validate_request(&ok, &doc, &wrong_schema, &state) {
        Err(RuntimeError::Ir(IrError::Invalid(message))) => {
            assert_eq!(message, "unsupported document-state schema")
        }
        other => panic!("unexpected {other:?}"),
    }

    let disagree = "request, source blob, materialized document, and base state do not agree";
    let other_state = DocumentStateId::derive(&[b"other"]);
    assert_eq!(enrichment_message(validate_request(&ok, &doc, &m, &other_state)), disagree);
    let empty = request(&doc, &state, Vec::new());
    assert_eq!(enrichment_message(validate_request(&empty, &doc, &m, &state)), disagree);
    let mut unpinned = ok.clone();
    unpinned.source.expected_digest = None;
    assert_eq!(enrichment_message(validate_request(&unpinned, &doc, &m, &state)), disagree);
    let mut other_source = manifest(&doc);
    other_source.source_pdf_sha256 = Sha256Digest::of_bytes(b"elsewhere");
    assert_eq!(enrichment_message(validate_request(&ok, &doc, &other_source, &state)), disagree);

    let absent = PageId::derive(&[b"absent"]);
    let bad_goals = request(
        &doc,
        &state,
        vec![
            goal(RefinementScope::Document),
            goal(RefinementScope::Pages { page_ids: vec![absent] }),
            goal(RefinementScope::Regions { regions: Vec::new() }),
        ],
    );
    assert_eq!(
        enrichment_message(validate_request(&bad_goals, &doc, &m, &state)),
        "page scope contains an absent page"
    );
}

#[test]
fn scope_page_index_reads_the_least_named_page() {
    let doc = document();
    let p0 = doc.pages[0].id.clone();
    let p1 = doc.pages[1].id.clone();
    assert_eq!(scope_page_index(&RefinementScope::Document, &doc).unwrap(), None);
    assert_eq!(
        scope_page_index(&RefinementScope::Pages { page_ids: vec![p1.clone()] }, &doc).unwrap(),
        Some(1)
    );
    let least = if p0.as_str() < p1.as_str() { 0 } else { 1 };
    assert_eq!(
        scope_page_index(&RefinementScope::Pages { page_ids: vec![p1.clone(), p0.clone()] }, &doc)
            .unwrap(),
        Some(least)
    );
    let region = PageRegionRef { page_id: p1.clone(), region_id: doc.pages[0].regions[0].id.clone() };
    assert_eq!(
        scope_page_index(&RefinementScope::Regions { regions: vec![region] }, &doc).unwrap(),
        Some(1)
    );
    let absent = PageId::derive(&[b"absent"]);
    assert_eq!(
        enrichment_message(
            scope_page_index(&RefinementScope::Pages { page_ids: vec![absent] }, &doc).map(|_| ())
        ),
        "scope page is absent"
    );
    assert_eq!(
        scope_page_index(&RefinementScope::Pages { page_ids: Vec::new() }, &doc).unwrap(),
        None
    );
}

#[test]
fn wrong_page_for_page_local_region_is_rejected() {
    let baseline = document();
    let state = DocumentStateId::derive(&[b"baseline"]);
    let valid = RegionRefinementTarget {
        base_document_state_id: state.clone(),
        page_id: baseline.pages[0].id.clone(),
        region_id: baseline.pages[0].regions[0].id.clone(),
        requested_capabilities: BTreeSet::from([Capability::TableRecognize]),
    };
    valid.validate(&baseline, &state).unwrap();
    let target = RegionRefinementTarget {
        base_document_state_id: state.clone(),
        page_id: baseline.pages[1].id.clone(),
        region_id: baseline.pages[0].regions[0].id.clone(),
        requested_capabilities: BTreeSet::from([Capability::TableRecognize]),
    };
    assert!(target.validate(&baseline, &state).is_err());
}

#[test]
fn future_delta_and_state_major_versions_fail_closed() {
    let doc = document();
    let mut future_delta = delta(&doc);
    future_delta.delta_schema = "ferrodoc-evidence-delta/2".into();
    assert!(future_delta.validate_envelope().is_err());
    let mut future_state = manifest(&doc);
    future_state.state_schema = "ferrodoc-document-state/2".into();
    let state = DocumentStateId::derive(&[b"state"]);
    let goals = vec![CapabilityGoal {
        capability: Capability::TableRecognize,
        scope: RefinementScope::Document,
    }];
    assert!(validate_request(&request(&doc, &state, goals), &doc, &future_state, &state).is_err());
}

#[test]
fn candidate_plans_remove_a_provably_dominated_alternative() {
    // One table goal with two admissible stages, in stage order: the fast one is
    // quicker and better, so it alone is left.
    let mut fast = candidate(Some(0), Some(1), Some(900));
    fast.engine_id = "fast-table".into();
    let mut slow = candidate(Some(0), Some(2), Some(800));
    slow.engine_id = "slow-table".into();
    let choices = vec![vec![fast, slow]];
    let pareto = plan_frontier(&choices);
    assert_eq!(pareto.len(), 1);
    assert_eq!(choices[0][pareto[0][0]].engine_id, "fast-table");
}
