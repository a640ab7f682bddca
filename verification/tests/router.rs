use std::collections::BTreeSet;

use ferrodoc::{
    common_engine, f64_bits_less, guarded_decision, stump_route, training_thresholds,
    ArtifactSource, BaselinePolicy, DecisionSource, FeatureValue, Partition, Profile,
    Qualification, RouteClass, RouteOutcome, RouterError, RouterEvaluation, RouterModel,
    RoutingDataset, RoutingFeatures, RoutingRecord, Sha256Digest, DATASET_VERSION,
    FEATURE_SCHEMA_VERSION, MODEL_VERSION,
};

fn features(chars: Option<u64>) -> RoutingFeatures {
    RoutingFeatures {
        page_count: FeatureValue::Observed { value: 1 },
        native_characters: chars.map_or_else(
            || FeatureValue::Missing {
                reason: "probe failed".into(),
            },
            |value| FeatureValue::Observed { value },
        ),
        image_coverage: FeatureValue::Observed { value: 0.2f64.to_bits() },
        scanned_likelihood: FeatureValue::Observed { value: 0.1f64.to_bits() },
    }
}

fn evaluation() -> RouterEvaluation {
    RouterEvaluation {
        partition: Partition::HeldOut,
        case_ids: vec!["case".into()],
        mean_quality: 1.0f64.to_bits(),
        mean_latency_ms: Some(1.0f64.to_bits()),
        failure_rate: 0.0f64.to_bits(),
        objective: 1.0f64.to_bits(),
    }
}

fn qualified_model() -> RouterModel {
    RouterModel {
        model_version: MODEL_VERSION.into(),
        feature_schema_version: FEATURE_SCHEMA_VERSION.into(),
        dataset_digest: Sha256Digest::of_bytes(b"dataset"),
        threshold: 32,
        native_if_at_least: true,
        native_engine: "native".into(),
        ocr_engine: "ocr".into(),
        confidence: 1.0f64.to_bits(),
        minimum_confidence: 0.6f64.to_bits(),
        qualification: Qualification::Qualified,
        training: evaluation(),
        held_out: evaluation(),
        baselines: Vec::new(),
    }
}

#[test]
fn learned_output_cannot_override_planner() {
    let decision = guarded_decision(
        &qualified_model(),
        &features(Some(0)),
        &BTreeSet::from(["native".into()]),
        &["native".into()],
    )
    .unwrap();
    assert_eq!(decision.engine_id, "native");
    assert_eq!(decision.source, DecisionSource::DeterministicFallback);
}

#[test]
fn missing_features_fall_back_deterministically() {
    let accepted = BTreeSet::from(["native".into(), "ocr".into()]);
    let decision = guarded_decision(
        &qualified_model(),
        &features(None),
        &accepted,
        &["native".into(), "ocr".into()],
    )
    .unwrap();
    assert_eq!(decision.engine_id, "native");
    assert_eq!(decision.source, DecisionSource::DeterministicFallback);
}

fn source() -> ArtifactSource {
    ArtifactSource {
        path: "trace.json".into(),
        digest: Sha256Digest::of_bytes(b"trace"),
    }
}

fn outcome(case_id: &str) -> RouteOutcome {
    RouteOutcome {
        engine_id: "native".into(),
        route: RouteClass::Native,
        benchmark_report: source(),
        case_id: case_id.into(),
        quality: 1.0f64.to_bits(),
        failed: false,
        cold_wall_ms: None,
    }
}

fn record(case_id: &str, family: &str, partition: Partition) -> RoutingRecord {
    RoutingRecord {
        case_id: case_id.into(),
        document_digest: Sha256Digest::of_bytes(case_id.as_bytes()),
        family_id: family.into(),
        partition,
        conversion_trace: source(),
        features: features(Some(100)),
        outcomes: vec![outcome(case_id)],
    }
}

fn dataset(records: Vec<RoutingRecord>) -> RoutingDataset {
    RoutingDataset {
        dataset_version: DATASET_VERSION.into(),
        feature_schema_version: FEATURE_SCHEMA_VERSION.into(),
        corpus_digest: Sha256Digest::of_bytes(b"corpus"),
        records,
    }
}

#[test]
fn related_variants_cannot_cross_partitions() {
    let dataset = dataset(vec![
        record("train", "same-family", Partition::Train),
        record("held", "same-family", Partition::HeldOut),
    ]);
    assert!(dataset.validate().is_err());
}

#[test]
fn baselines_handle_missing_values_explicitly() {
    assert_eq!(
        BaselinePolicy::NativeThreshold {
            minimum_characters: 1
        }
        .route(&features(None)),
        RouteClass::Ocr
    );
    assert_eq!(
        BaselinePolicy::AlwaysNative.route(&features(None)),
        RouteClass::Native
    );
}

fn message(result: Result<(), RouterError>) -> String {
    match result {
        Err(RouterError::Integrity(m)) => m,
        Ok(()) => panic!("expected a refusal"),
    }
}

#[test]
fn dataset_rules_report_the_first_fault() {
    let ok = dataset(vec![
        record("a", "f", Partition::Train),
        record("b", "f", Partition::Train),
        record("c", "g", Partition::HeldOut),
    ]);
    assert!(ok.validate().is_ok());

    let mut d = ok.clone();
    d.feature_schema_version = "ferrodoc-routing-features/2".into();
    assert_eq!(message(d.validate()), "unsupported dataset or feature schema version");
    assert_eq!(message(dataset(vec![]).validate()), "routing dataset is empty");

    let mut d = ok.clone();
    d.records[1].family_id = String::new();
    assert_eq!(message(d.validate()), "empty case or family identity");

    let mut d = ok.clone();
    d.records[2].case_id = "a".into();
    d.records[2].outcomes[0].case_id = "a".into();
    assert_eq!(message(d.validate()), "duplicate routing case \"a\"");

    let mut d = ok.clone();
    d.records[2].family_id = "f".into();
    assert_eq!(message(d.validate()), "family \"f\" crosses corpus partitions");

    let mut d = ok.clone();
    d.records[0].conversion_trace.path = "/trace.json".into();
    assert_eq!(message(d.validate()), "routing source path must be normalized and relative");

    let mut d = ok.clone();
    d.records[0].outcomes.clear();
    assert_eq!(message(d.validate()), "case \"a\" has no observed candidate outcomes");

    let mut d = ok.clone();
    d.records[0].outcomes[0].case_id = "other".into();
    assert_eq!(message(d.validate()), "benchmark outcome identity differs from routing record");

    for bad in [1.5f64, -0.5, f64::NAN, f64::INFINITY] {
        let mut d = ok.clone();
        d.records[0].outcomes[0].quality = bad.to_bits();
        assert_eq!(message(d.validate()), "invalid outcome quality", "{bad}");
    }
    for fine in [0.0f64, -0.0, 1.0, 0.25, f64::MIN_POSITIVE] {
        let mut d = ok.clone();
        d.records[0].outcomes[0].quality = fine.to_bits();
        assert!(d.validate().is_ok(), "{fine}");
    }

    let mut d = ok.clone();
    let duplicate = d.records[0].outcomes[0].clone();
    d.records[0].outcomes.push(duplicate);
    assert_eq!(message(d.validate()), "duplicate engine outcome in case \"a\"");

    let mut d = ok.clone();
    d.records[1].features.scanned_likelihood = FeatureValue::Observed { value: 2.0f64.to_bits() };
    assert_eq!(message(d.validate()), "routing probability feature is outside zero through one");
}

#[test]
fn baseline_rules_compare_against_one_half() {
    let mut f = features(Some(40));
    assert_eq!(
        BaselinePolicy::PageTypeRules { minimum_characters: 32 }.route(&f),
        RouteClass::Native
    );
    f.scanned_likelihood = FeatureValue::Observed { value: 0.5f64.to_bits() };
    assert_eq!(
        BaselinePolicy::PageTypeRules { minimum_characters: 32 }.route(&f),
        RouteClass::Ocr
    );
    f.scanned_likelihood = FeatureValue::Observed { value: f64::NAN.to_bits() };
    assert_eq!(
        BaselinePolicy::PageTypeRules { minimum_characters: 32 }.route(&f),
        RouteClass::Native
    );
    let accurate = BaselinePolicy::ProfileSpecific { profile: Profile::Accurate };
    assert_eq!(accurate.route(&features(None)), RouteClass::Native);
    let mut g = features(None);
    g.image_coverage = FeatureValue::Observed { value: 0.75f64.to_bits() };
    assert_eq!(accurate.route(&g), RouteClass::Ocr);
    let fast = BaselinePolicy::ProfileSpecific { profile: Profile::Fast };
    assert_eq!(fast.route(&features(Some(0))), RouteClass::Ocr);
    assert_eq!(fast.route(&features(Some(1))), RouteClass::Native);
    let balanced = BaselinePolicy::ProfileSpecific { profile: Profile::Balanced };
    assert_eq!(balanced.route(&features(Some(31))), RouteClass::Ocr);
    assert_eq!(balanced.route(&features(Some(32))), RouteClass::Native);
}

#[test]
fn float_bits_order_matches_f64() {
    let values = [
        f64::NEG_INFINITY, -2.0, -0.5, -0.0, 0.0, f64::MIN_POSITIVE, 0.5, 0.6, 1.0,
        f64::INFINITY, f64::NAN,
    ];
    for a in values {
        for b in values {
            assert_eq!(f64_bits_less(a.to_bits(), b.to_bits()), a < b, "{a} < {b}");
        }
    }
}

#[test]
fn qualified_model_routes_within_planner_acceptance() {
    let accepted = BTreeSet::from(["native".into(), "ocr".into()]);
    let decision =
        guarded_decision(&qualified_model(), &features(Some(10)), &accepted, &[]).unwrap();
    assert_eq!(decision.engine_id, "ocr");
    assert_eq!(decision.source, DecisionSource::QualifiedModel);

    let mut low = qualified_model();
    low.confidence = 0.5f64.to_bits();
    let decision = guarded_decision(&low, &features(Some(10)), &accepted, &[]).unwrap();
    assert_eq!(decision.engine_id, "native");
    assert_eq!(decision.source, DecisionSource::DeterministicFallback);

    let none: BTreeSet<String> = BTreeSet::new();
    match guarded_decision(&qualified_model(), &features(Some(10)), &none, &["ocr".into()]) {
        Err(RouterError::Integrity(m)) => assert_eq!(m, "planner accepted no candidate"),
        Ok(d) => panic!("no candidate was accepted, got {d:?}"),
    }
}

#[test]
fn training_helpers_are_exact() {
    assert_eq!(stump_route(&features(None), 10, true), RouteClass::Native);
    assert_eq!(stump_route(&features(Some(10)), 10, true), RouteClass::Native);
    assert_eq!(stump_route(&features(Some(10)), 10, false), RouteClass::Ocr);
    let mut records = vec![
        record("a", "f", Partition::Train),
        record("b", "g", Partition::Train),
        record("c", "h", Partition::HeldOut),
    ];
    records[0].features.native_characters = FeatureValue::Observed { value: 7 };
    records[2].features.native_characters = FeatureValue::Observed { value: 3 };
    assert_eq!(training_thresholds(&records), vec![0, 7, 100]);
    assert_eq!(common_engine(&records, RouteClass::Native).unwrap(), "native");
    match common_engine(&records, RouteClass::Ocr) {
        Err(RouterError::Integrity(m)) => {
            assert_eq!(m, "training requires exactly one Ocr candidate across all cases")
        }
        Ok(e) => panic!("no OCR outcome exists, got {e}"),
    }
    records[1].outcomes[0].engine_id = "other".into();
    assert!(common_engine(&records, RouteClass::Native).is_err());
}
