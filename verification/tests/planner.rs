use std::collections::BTreeSet;

use ferrodoc::{
    decide, plan, BackendId, Bytes, Capability, CandidateInput, DeviceId, DeviceInventory, DeviceKind,
    EngineCandidate, EngineCompatibility, EngineDescriptor, Estimate, EstimateConfidence,
    EstimateSource, HardwareInventory, MicroUsd, Millis, ModelAvailability, ModelId, NetworkUse,
    PlacementPolicy, PlannerPolicy, Profile, ReasonCode, ResourceEstimate,
};

fn inventory() -> HardwareInventory {
    HardwareInventory {
        logical_cpus: Estimate::Known(4),
        physical_cpus: Estimate::Known(2),
        cpu_source: Estimate::Known(EstimateSource {
            confidence: EstimateConfidence::Measured,
            method: "fixture".into(),
        }),
        ram_total: Estimate::Known(Bytes::new(8 * Bytes::GIB)),
        ram_available: Estimate::Known(Bytes::new(4 * Bytes::GIB)),
        ram_source: Estimate::Known(EstimateSource {
            confidence: EstimateConfidence::Measured,
            method: "fixture".into(),
        }),
        devices: Vec::new(),
    }
}

fn candidate(id: &str, ram: Estimate<Bytes>, vram: Estimate<Bytes>) -> CandidateInput {
    let backend = BackendId::new("fixture").unwrap();
    let device = DeviceId::new(DeviceKind::Cpu, None).unwrap();
    CandidateInput {
        descriptor: EngineDescriptor {
            id: id.into(),
            version: "1.0.0".into(),
            capabilities: BTreeSet::from([Capability::OcrPage]),
            compatibility: vec![EngineCompatibility {
                backend: backend.clone(),
                devices: BTreeSet::from([DeviceKind::Cpu]),
            }],
            deterministic: true,
            network_use: NetworkUse::Never,
            max_concurrency: 1,
        },
        candidate: EngineCandidate {
            engine_id: id.into(),
            backend,
            device,
            resources: ResourceEstimate {
                peak_ram: ram,
                warm_ram: Estimate::Known(Bytes::new(0)),
                peak_vram: vram,
                warm_vram: Estimate::Known(Bytes::new(0)),
                latency: Estimate::Known(Millis::new(10)),
                remote_cost: Estimate::Known(MicroUsd::new(0)),
                quality: Estimate::Known(1000),
                source: Estimate::Unknown,
            },
        },
        model: ModelAvailability::NotRequired,
    }
}

fn codes(policy: &PlannerPolicy, input: CandidateInput) -> Vec<ReasonCode> {
    decide(policy, &inventory(), input)
        .reasons
        .iter()
        .map(|reason| reason.code)
        .collect()
}

#[test]
fn unknown_hard_estimate_rejects_without_opt_in() {
    let mut policy = PlannerPolicy::for_profile(Profile::Balanced, Capability::OcrPage);
    policy.max_ram = Some(Bytes::new(Bytes::GIB));
    let report = plan(
        policy.clone(),
        &inventory(),
        vec![candidate(
            "unknown",
            Estimate::Unknown,
            Estimate::Known(Bytes::new(0)),
        )],
    );
    assert!(report.selected.is_none());
    assert_eq!(report.decisions[0].reasons[0].code, ReasonCode::RamUnknown);
    policy.allow_unknown_hard_estimates = true;
    assert!(
        plan(
            policy,
            &inventory(),
            vec![candidate(
                "guarded",
                Estimate::Unknown,
                Estimate::Known(Bytes::new(0))
            )]
        )
        .selected
        .is_some()
    );
}

#[test]
fn low_vram_is_a_hard_bound_and_never_fabricates_fallback() {
    let policy = PlannerPolicy::for_profile(Profile::LowVram, Capability::OcrPage);
    let report = plan(
        policy,
        &inventory(),
        vec![candidate(
            "large",
            Estimate::Known(Bytes::new(Bytes::GIB)),
            Estimate::Known(Bytes::new(3 * Bytes::GIB)),
        )],
    );
    assert!(report.selected.is_none());
    assert!(
        report.decisions[0]
            .reasons
            .iter()
            .any(|reason| reason.code == ReasonCode::VramBudgetExceeded)
    );
}

#[test]
fn missing_model_and_private_network_use_have_distinct_codes() {
    let mut input = candidate(
        "remote",
        Estimate::Known(Bytes::new(Bytes::GIB)),
        Estimate::Known(Bytes::new(0)),
    );
    input.descriptor.network_use = NetworkUse::Required;
    input.model = ModelAvailability::Missing {
        id: ModelId::derive(&[b"missing"]),
    };
    let report = plan(
        PlannerPolicy::for_profile(Profile::Private, Capability::OcrPage),
        &inventory(),
        vec![input],
    );
    let codes: BTreeSet<_> = report.decisions[0]
        .reasons
        .iter()
        .map(|reason| reason.code)
        .collect();
    assert!(codes.contains(&ReasonCode::ModelUnavailable));
    assert!(codes.contains(&ReasonCode::PrivacyViolation));
}

#[test]
fn fast_profile_selects_lowest_known_latency_stably() {
    let mut slow = candidate(
        "slow",
        Estimate::Known(Bytes::new(Bytes::GIB)),
        Estimate::Known(Bytes::new(0)),
    );
    slow.candidate.resources.latency = Estimate::Known(Millis::new(20));
    let fast = candidate(
        "fast",
        Estimate::Known(Bytes::new(Bytes::GIB)),
        Estimate::Known(Bytes::new(0)),
    );
    let report = plan(
        PlannerPolicy::for_profile(Profile::Fast, Capability::OcrPage),
        &inventory(),
        vec![slow, fast],
    );
    assert_eq!(report.selected.unwrap().engine_id, "fast");
    assert_eq!(report.decisions.len(), 2);
}

#[test]
fn decisions_carry_exact_reasons() {
    let mut policy = PlannerPolicy::for_profile(Profile::Balanced, Capability::OcrPage);
    policy.max_ram = Some(Bytes::new(Bytes::GIB));
    let decision = decide(
        &policy,
        &inventory(),
        candidate("unknown", Estimate::Unknown, Estimate::Known(Bytes::new(0))),
    );
    assert!(!decision.accepted);
    assert_eq!(decision.reasons[0].explanation, "RAM estimate is unknown under a hard limit");
    let vram = PlannerPolicy::for_profile(Profile::LowVram, Capability::OcrPage);
    assert_eq!(vram.max_vram, Some(Bytes::new(2 * Bytes::GIB)));
    let decision = decide(
        &vram,
        &inventory(),
        candidate(
            "large",
            Estimate::Known(Bytes::new(Bytes::GIB)),
            Estimate::Known(Bytes::new(3 * Bytes::GIB)),
        ),
    );
    assert!(decision
        .reasons
        .iter()
        .any(|reason| reason.explanation == "estimated VRAM 3221225472 exceeds hard limit 2147483648"));
    let mut input = candidate("remote", Estimate::Known(Bytes::new(1)), Estimate::Known(Bytes::new(0)));
    input.descriptor.network_use = NetworkUse::Required;
    let codes = codes(&PlannerPolicy::for_profile(Profile::Private, Capability::OcrPage), input);
    assert!(!codes.contains(&ReasonCode::OfflineViolation));
}

#[test]
fn decisions_are_ordered_by_identity_and_ties_keep_input_order() {
    let low = |id: &str, quality: u64| {
        let mut c = candidate(id, Estimate::Known(Bytes::new(1)), Estimate::Known(Bytes::new(0)));
        c.candidate.resources.quality = Estimate::Known(quality);
        c
    };
    let mut rejected_b = low("b", 5);
    rejected_b.descriptor.capabilities.clear();
    let report = plan(
        PlannerPolicy::for_profile(Profile::Accurate, Capability::OcrPage),
        &inventory(),
        vec![low("c", 10), rejected_b, low("a", 10), low("ab", 30)],
    );
    let order: Vec<&str> = report.decisions.iter().map(|d| d.input.candidate.engine_id.as_str()).collect();
    assert_eq!(order, vec!["a", "ab", "b", "c"]);
    assert!(!report.decisions[2].accepted);
    assert_eq!(report.selected.unwrap().engine_id, "ab");

    // Equal quality: identity breaks the tie.
    let report = plan(
        PlannerPolicy::for_profile(Profile::Accurate, Capability::OcrPage),
        &inventory(),
        vec![low("z", 10), low("y", 10)],
    );
    assert_eq!(report.selected.unwrap().engine_id, "y");

    // Unknown quality loses to any known quality.
    let mut unknown = low("a", 0);
    unknown.candidate.resources.quality = Estimate::Unknown;
    let report = plan(
        PlannerPolicy::for_profile(Profile::Accurate, Capability::OcrPage),
        &inventory(),
        vec![unknown, low("b", 1)],
    );
    assert_eq!(report.selected.unwrap().engine_id, "b");

    // A preferred device wins over the profile measure.
    let mut gpu = low("gpu", 1);
    gpu.candidate.device = DeviceId::new(DeviceKind::Cuda, Some(0)).unwrap();
    gpu.descriptor.compatibility[0].devices.insert(DeviceKind::Cuda);
    let mut policy = PlannerPolicy::for_profile(Profile::Accurate, Capability::OcrPage);
    policy.placement = PlacementPolicy::Prefer(DeviceId::new(DeviceKind::Cuda, Some(0)).unwrap());
    let mut inv = inventory();
    inv.devices.push(DeviceInventory {
        id: DeviceId::new(DeviceKind::Cuda, Some(0)).unwrap(),
        memory_total: Estimate::Known(Bytes::new(8 * Bytes::GIB)),
        memory_available: Estimate::Known(Bytes::new(8 * Bytes::GIB)),
        metadata: Default::default(),
    });
    let report = plan(policy, &inv, vec![low("cpu", 99), gpu]);
    assert_eq!(report.selected.unwrap().engine_id, "gpu");
}

#[test]
fn identity_and_placement_constraints() {
    let policy = PlannerPolicy::for_profile(Profile::Cpu, Capability::TableRecognize);
    assert_eq!(policy.placement, PlacementPolicy::CpuOnly);
    let mut input = candidate("a", Estimate::Known(Bytes::new(1)), Estimate::Known(Bytes::new(0)));
    input.candidate.engine_id = "b".into();
    input.candidate.device = DeviceId::new(DeviceKind::Cuda, Some(0)).unwrap();
    let decision = decide(&policy, &inventory(), input);
    let reasons: Vec<(ReasonCode, &str)> = decision
        .reasons
        .iter()
        .map(|r| (r.code, r.explanation.as_str()))
        .collect();
    assert_eq!(
        reasons,
        vec![
            (ReasonCode::CapabilityUnsupported, "engine a does not declare table.recognize"),
            (ReasonCode::DescriptorMismatch, "candidate engine ID differs from its descriptor"),
            (ReasonCode::DeviceIncompatible, "backend fixture on cuda:0 is not declared compatible"),
            (ReasonCode::DeviceIncompatible, "device cuda:0 is absent from hardware inventory"),
            (ReasonCode::PlacementRejected, "device cuda:0 violates placement policy"),
        ]
    );
    let mut policy = PlannerPolicy::for_profile(Profile::Offline, Capability::OcrPage);
    policy.allowed_engines.insert("other".into());
    let mut input = candidate("a", Estimate::Known(Bytes::new(1)), Estimate::Known(Bytes::new(0)));
    input.descriptor.network_use = NetworkUse::Optional;
    assert_eq!(
        codes(&policy, input),
        vec![ReasonCode::EngineNotAllowed, ReasonCode::OfflineViolation]
    );
}

#[test]
fn device_memory_bounds_vram() {
    let mut inventory = inventory();
    let cuda = DeviceId::new(DeviceKind::Cuda, Some(1)).unwrap();
    inventory.devices.push(DeviceInventory {
        id: cuda,
        memory_total: Estimate::Known(Bytes::new(8 * Bytes::GIB)),
        memory_available: Estimate::Known(Bytes::new(Bytes::GIB)),
        metadata: Default::default(),
    });
    let policy = PlannerPolicy::for_profile(Profile::Balanced, Capability::OcrPage);
    let mut input = candidate(
        "gpu",
        Estimate::Known(Bytes::new(1)),
        Estimate::Known(Bytes::new(2 * Bytes::GIB)),
    );
    input.candidate.device = cuda;
    input.descriptor.compatibility[0].devices.insert(DeviceKind::Cuda);
    let decision = decide(&policy, &inventory, input);
    assert_eq!(decision.reasons.len(), 1);
    assert_eq!(decision.reasons[0].code, ReasonCode::VramBudgetExceeded);
}
