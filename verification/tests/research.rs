use std::collections::BTreeMap;

use ferrodoc::{
    CommandProvenance, ExperimentBudget, ExperimentLedger, ExperimentSpec, ProtectedArtifact,
    ResearchError, Sha256Digest, TrialSpec, TrialStatus, LEDGER_VERSION, SPEC_VERSION,
};
use ferrodoc::{TrialRecord, TrialStep, next_trial_step};

fn spec(truth: Sha256Digest, evaluator: Sha256Digest) -> ExperimentSpec {
    ExperimentSpec {
        spec_version: SPEC_VERSION.into(),
        experiment_id: "experiment".into(),
        code_digest: Sha256Digest::of_bytes(b"code"),
        model_digest: None,
        corpus_digest: Sha256Digest::of_bytes(b"corpus"),
        evaluator_digest: evaluator,
        budget: ExperimentBudget {
            maximum_evaluations: 1,
            maximum_runner_wall_ms: 10_000,
        },
        protected: vec![
            ProtectedArtifact {
                path: "truth.json".into(),
                digest: truth,
                role: "benchmark_truth".into(),
            },
            ProtectedArtifact {
                path: "metrics.bin".into(),
                digest: evaluator,
                role: "evaluator_binary".into(),
            },
        ],
        trials: vec![TrialSpec::Mutation {
            id: "mutation-1".into(),
            command: CommandProvenance {
                argv: vec!["trainer".into(), "--fixed-seed".into()],
                environment: BTreeMap::from([("RUSTC".into(), "1.95.0".into())]),
                working_directory_digest: Sha256Digest::of_bytes(b"tree"),
            },
            output_digest: None,
        }],
    }
}

fn evaluation(id: &str, report: &str) -> TrialSpec {
    TrialSpec::Evaluation {
        id: id.into(),
        command: CommandProvenance {
            argv: vec!["evaluator".into()],
            environment: BTreeMap::new(),
            working_directory_digest: Sha256Digest::of_bytes(b"tree"),
        },
        raw_report: report.into(),
        raw_report_digest: Sha256Digest::of_bytes(b"report"),
    }
}

fn message(result: Result<(), ResearchError>) -> String {
    match result {
        Err(ResearchError::Integrity(message)) => message,
        other => panic!("expected an integrity error, got {other:?}"),
    }
}

#[test]
fn evaluator_and_truth_are_mandatory_and_cannot_alias_outputs() {
    let mut spec = spec(
        Sha256Digest::of_bytes(b"truth"),
        Sha256Digest::of_bytes(b"metrics"),
    );
    spec.protected.pop();
    assert!(spec.validate().is_err());
    spec.protected.push(ProtectedArtifact {
        path: "metrics.bin".into(),
        digest: Sha256Digest::of_bytes(b"metrics"),
        role: "metric_code".into(),
    });
    spec.trials.push(TrialSpec::Evaluation {
        id: "evaluation".into(),
        command: CommandProvenance {
            argv: vec!["evaluator".into()],
            environment: BTreeMap::new(),
            working_directory_digest: Sha256Digest::of_bytes(b"tree"),
        },
        raw_report: "truth.json".into(),
        raw_report_digest: Sha256Digest::of_bytes(b"report"),
    });
    assert!(spec.validate().is_err());
}

#[test]
fn well_formed_experiment_validates() {
    let mut spec = spec(Sha256Digest::of_bytes(b"truth"), Sha256Digest::of_bytes(b"metrics"));
    assert!(spec.validate().is_ok());
    spec.trials.push(evaluation("evaluation", "reports/run.json"));
    assert!(spec.validate().is_ok());
}

#[test]
fn each_integrity_rule_has_its_message() {
    let base = spec(Sha256Digest::of_bytes(b"truth"), Sha256Digest::of_bytes(b"metrics"));

    let mut s = base.clone();
    s.spec_version = "ferrodoc-experiment-spec/2".into();
    assert_eq!(message(s.validate()), "unsupported spec version or empty experiment ID");

    let mut s = base.clone();
    s.budget.maximum_runner_wall_ms = 0;
    assert_eq!(message(s.validate()), "experiment budget must be positive");

    let mut s = base.clone();
    s.protected.clear();
    assert_eq!(message(s.validate()), "truth and evaluator protection list cannot be empty");

    for bad in ["", "/etc/truth.json", "../truth.json", "a/../truth.json", "a/.."] {
        let mut s = base.clone();
        s.protected[0].path = bad.into();
        assert_eq!(
            message(s.validate()),
            "experiment artifact path must be normalized and relative",
            "{bad}"
        );
    }
    let mut s = base.clone();
    s.protected[0].path = ".../truth.json".into();
    assert!(s.validate().is_ok());

    let mut s = base.clone();
    s.protected[1].path = "truth.json".into();
    assert_eq!(message(s.validate()), "protected artifacts need unique paths and nonempty roles");

    let mut s = base.clone();
    s.protected[1].role = "".into();
    assert_eq!(message(s.validate()), "protected artifacts need unique paths and nonempty roles");

    let mut s = base.clone();
    s.protected[0].role = "truth".into();
    assert_eq!(
        message(s.validate()),
        "protected artifacts must include benchmark_truth and metric_code/evaluator_binary"
    );

    let mut s = base.clone();
    s.trials.push(evaluation("mutation-1", "report.json"));
    assert_eq!(message(s.validate()), "trial IDs must be nonempty and unique");

    let mut s = base.clone();
    s.trials.push(evaluation("", "report.json"));
    assert_eq!(message(s.validate()), "trial IDs must be nonempty and unique");

    let mut s = base.clone();
    if let TrialSpec::Mutation { command, .. } = &mut s.trials[0] {
        command.argv.push(String::new());
    }
    assert_eq!(message(s.validate()), "exact command argv must be nonempty");

    let mut s = base.clone();
    s.trials.push(evaluation("evaluation", "../report.json"));
    assert_eq!(message(s.validate()), "experiment artifact path must be normalized and relative");

    let mut s = base.clone();
    s.trials.push(evaluation("evaluation", "metrics.bin"));
    assert_eq!(
        message(s.validate()),
        "evaluation output cannot alias protected truth or metric code"
    );
}

#[test]
fn fresh_ledger_is_pending_and_resumable() {
    let mut spec = spec(Sha256Digest::of_bytes(b"truth"), Sha256Digest::of_bytes(b"metrics"));
    spec.trials.push(evaluation("evaluation", "report.json"));
    let spec_digest = Sha256Digest::of_bytes(b"spec bytes");
    let ledger = ExperimentLedger::fresh(&spec, spec_digest);
    assert_eq!(ledger.ledger_version, LEDGER_VERSION);
    assert_eq!(ledger.experiment_id, "experiment");
    assert_eq!(ledger.trials.len(), 2);
    assert_eq!(ledger.trials[0].id, "mutation-1");
    assert_eq!(ledger.trials[1].id, "evaluation");
    assert!(ledger.trials.iter().all(|t| t.status == TrialStatus::Pending));
    assert!(ledger.check_resumable(&spec, spec_digest).is_ok());
    assert_eq!(ledger.record_position("evaluation").unwrap(), 1);
    assert!(ledger.record_position("missing").is_err());

    let other = Sha256Digest::of_bytes(b"other spec bytes");
    match ledger.check_resumable(&spec, other) {
        Err(ResearchError::Integrity(m)) => {
            assert_eq!(m, "existing ledger does not match immutable experiment identities")
        }
        _ => panic!("a different definition must not resume this ledger"),
    }
    let mut changed = spec.clone();
    changed.model_digest = Some(Sha256Digest::of_bytes(b"model"));
    assert!(ledger.check_resumable(&changed, spec_digest).is_err());
}

#[test]
fn trial_steps_record_mutations_and_respect_budgets() {
    let spec = spec(Sha256Digest::of_bytes(b"truth"), Sha256Digest::of_bytes(b"metrics"));
    let mutation = &spec.trials[0];
    let budget = &spec.budget;
    assert_eq!(
        next_trial_step(mutation, &TrialStatus::Pending, 5, budget, 99_999),
        TrialStep::Record(TrialStatus::MutationRecorded { output_digest: None })
    );
    let eval = evaluation("evaluation", "report.json");
    assert_eq!(next_trial_step(&eval, &TrialStatus::Pending, 0, budget, 0), TrialStep::Evaluate);
    assert_eq!(next_trial_step(&eval, &TrialStatus::Pending, 1, budget, 0), TrialStep::Unchanged);
    assert_eq!(
        next_trial_step(&eval, &TrialStatus::Pending, 0, budget, 10_000),
        TrialStep::Unchanged
    );
    let failed = TrialStatus::Failed { reason: "bad".into() };
    assert_eq!(next_trial_step(&eval, &failed, 0, budget, 0), TrialStep::Unchanged);
}

#[test]
fn settling_counts_and_saturates_wall_time() {
    let mut spec = spec(Sha256Digest::of_bytes(b"truth"), Sha256Digest::of_bytes(b"metrics"));
    spec.trials.push(evaluation("a", "a.json"));
    spec.trials.push(evaluation("b", "b.json"));
    let mut ledger = ExperimentLedger::fresh(&spec, Sha256Digest::of_bytes(b"spec"));
    ledger.trials[1] = TrialRecord {
        id: "a".into(),
        status: TrialStatus::EvaluationComplete {
            engine_id: "engine".into(),
            report_digest: Sha256Digest::of_bytes(b"a"),
        },
    };
    assert_eq!(ledger.admitted(), 1);
    ledger.settle(40, 2);
    assert_eq!(ledger.completed_evaluations, 1);
    assert_eq!(ledger.pending_evaluations, 2);
    assert_eq!(ledger.runner_wall_ms, 42);
    ledger.settle(u64::MAX - 1, u128::MAX);
    assert_eq!(ledger.runner_wall_ms, u64::MAX);
}
