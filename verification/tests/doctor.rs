use ferrodoc::{
    DependencyHealth, DoctorReport, DoctorStage, DoctorStatus, EngineError, EngineErrorCategory,
    HealthReport, HealthStatus,
};

fn unavailable_health() -> Result<HealthReport, EngineError> {
    Ok(HealthReport {
        status: HealthStatus::Unavailable,
        dependencies: vec![
            DependencyHealth {
                id: "fixture-model".into(),
                status: HealthStatus::Unavailable,
                message: "missing".into(),
            },
            DependencyHealth {
                id: "native-runtime".into(),
                status: HealthStatus::Unavailable,
                message: "missing".into(),
            },
        ],
        message: "not ready".into(),
    })
}

#[test]
fn report_distinguishes_model_health_and_inference() {
    let mut report = DoctorReport::default();
    let inference = Err(EngineError::new(EngineErrorCategory::Model, false, "missing"));
    report.record_engine("doctor.fixture", unavailable_health(), Some(inference));
    assert!(report.checks.iter().any(|check| {
        check.stage == DoctorStage::Model && check.status == DoctorStatus::Failed
    }));
    assert!(report.checks.iter().any(|check| {
        check.stage == DoctorStage::Health && check.status == DoctorStatus::Failed
    }));
    assert!(report.checks.iter().any(|check| {
        check.stage == DoctorStage::Dependency && check.status == DoctorStatus::Failed
    }));
    assert!(report.checks.iter().any(|check| {
        check.stage == DoctorStage::Inference && check.status == DoctorStatus::Failed
    }));
}

#[test]
fn report_lists_checks_in_order_with_messages() {
    let mut report = DoctorReport::default();
    report.discovery_failure("missing-plugin", "executable not found");
    report.record_engine("doctor.fixture", unavailable_health(), None);
    let summary: Vec<(&str, DoctorStage, DoctorStatus, &str)> = report
        .checks
        .iter()
        .map(|c| (c.engine_id.as_str(), c.stage, c.status, c.message.as_str()))
        .collect();
    assert_eq!(
        summary,
        vec![
            ("missing-plugin", DoctorStage::Discovery, DoctorStatus::Failed, "executable not found"),
            ("doctor.fixture", DoctorStage::Discovery, DoctorStatus::Passed, "engine descriptor is available"),
            ("doctor.fixture", DoctorStage::Model, DoctorStatus::Failed, "fixture-model: missing"),
            ("doctor.fixture", DoctorStage::Dependency, DoctorStatus::Failed, "native-runtime: missing"),
            ("doctor.fixture", DoctorStage::Health, DoctorStatus::Failed, "not ready"),
            (
                "doctor.fixture",
                DoctorStage::Inference,
                DoctorStatus::Skipped,
                "inference probe was not requested or unavailable for this plugin"
            ),
        ]
    );

    let mut report = DoctorReport::default();
    let error = EngineError::new(EngineErrorCategory::Dependency, false, "runtime absent");
    report.record_engine("e", Err(error), Some(Ok(())));
    assert_eq!(report.checks[1].stage, DoctorStage::Dependency);
    assert_eq!(report.checks[1].status, DoctorStatus::Failed);
    assert_eq!(report.checks[1].message, "runtime absent");
    assert_eq!(report.checks[2].status, DoctorStatus::Passed);
    assert_eq!(report.checks[2].message, "minimal semantic inference succeeded");

    let mut report = DoctorReport::default();
    let healthy = HealthReport {
        status: HealthStatus::Degraded,
        dependencies: vec![],
        message: "slow".into(),
    };
    report.record_engine("e", Ok(healthy), None);
    assert_eq!(report.checks[1].stage, DoctorStage::Health);
    assert_eq!(report.checks[1].status, DoctorStatus::Failed);
}
