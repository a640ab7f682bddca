use ferrodoc::{
    execution_step, fault_error, CacheDecision, ExecutionAction, ExecutionEvent, ExecutionFault,
    ExecutionPhase, ExecutionState, RuntimeError,
};

fn accept_plan(s: &ExecutionState, invocations: usize) -> (ExecutionState, ExecutionAction) {
    execution_step(
        s,
        ExecutionEvent::Admission { plan_matches_request: true, invocations, in_frontier: true },
    )
}

fn resolved(deterministic: bool, seeded: bool) -> ExecutionEvent {
    ExecutionEvent::StageResolved { registered: true, matches: true, deterministic, seeded }
}

fn message(e: RuntimeError) -> String {
    match e {
        RuntimeError::InvalidEnrichment(m) => m,
        _ => panic!("expected an enrichment error"),
    }
}

#[test]
fn a_cold_durable_run_stores_each_cacheable_delta_and_asks_the_policy() {
    let s = ExecutionState::start(true);
    let (s, a) = accept_plan(&s, 2);
    assert_eq!(a, ExecutionAction::ResolveStage { index: 0 });
    let (s, a) = execution_step(&s, resolved(true, false));
    assert_eq!(a, ExecutionAction::ConsultDurable);
    let (s, a) = execution_step(&s, ExecutionEvent::DurableLookup { hit: false });
    assert_eq!(a, ExecutionAction::RunEngine);
    let (s, a) = execution_step(&s, ExecutionEvent::EngineResponded { request_id_matches: true });
    assert_eq!(a, ExecutionAction::BuildDelta { persist: true, record: CacheDecision::Miss });
    let (s, a) = execution_step(&s, ExecutionEvent::DeltaRecorded);
    assert_eq!(a, ExecutionAction::ResolveStage { index: 1 });
    // The second engine is nondeterministic and unseeded: it runs, nothing is stored.
    let (s, a) = execution_step(&s, resolved(false, false));
    assert_eq!(a, ExecutionAction::RunEngine);
    let (s, a) = execution_step(&s, ExecutionEvent::EngineResponded { request_id_matches: true });
    assert_eq!(a, ExecutionAction::BuildDelta { persist: false, record: CacheDecision::Uncacheable });
    let (s, a) = execution_step(&s, ExecutionEvent::DeltaRecorded);
    assert_eq!(a, ExecutionAction::Materialize { consult_policy: true });
    let (s, a) = execution_step(&s, ExecutionEvent::Materialized { policy_checkpoints: false });
    assert_eq!(a, ExecutionAction::Complete { keep_checkpoint: false });
    assert_eq!(s.phase, ExecutionPhase::Done);
}

#[test]
fn a_durable_hit_is_reused_without_running_the_engine() {
    let s = ExecutionState::start(true);
    let (s, _) = accept_plan(&s, 1);
    let (s, a) = execution_step(&s, resolved(false, true));
    assert_eq!(a, ExecutionAction::ConsultDurable);
    let (s, a) = execution_step(&s, ExecutionEvent::DurableLookup { hit: true });
    assert_eq!(a, ExecutionAction::ReuseCachedDelta);
    assert_eq!(s.record, CacheDecision::Hit);
    assert!(!s.persist);
    // An engine response is not awaited here: nothing changes.
    let (same, a) = execution_step(&s, ExecutionEvent::EngineResponded { request_id_matches: true });
    assert_eq!(a, ExecutionAction::Wait);
    assert_eq!(same, s);
    let (s, a) = execution_step(&s, ExecutionEvent::DeltaRecorded);
    assert_eq!(a, ExecutionAction::Materialize { consult_policy: true });
    let (_, a) = execution_step(&s, ExecutionEvent::Materialized { policy_checkpoints: true });
    assert_eq!(a, ExecutionAction::Complete { keep_checkpoint: true });
}

#[test]
fn without_a_durable_store_every_checkpoint_is_kept() {
    let s = ExecutionState::start(false);
    let (s, _) = accept_plan(&s, 1);
    let (s, a) = execution_step(&s, resolved(true, false));
    assert_eq!(a, ExecutionAction::RunEngine);
    let (s, a) = execution_step(&s, ExecutionEvent::EngineResponded { request_id_matches: true });
    assert_eq!(a, ExecutionAction::BuildDelta { persist: false, record: CacheDecision::NotConfigured });
    let (s, a) = execution_step(&s, ExecutionEvent::DeltaRecorded);
    assert_eq!(a, ExecutionAction::Materialize { consult_policy: false });
    let (_, a) = execution_step(&s, ExecutionEvent::Materialized { policy_checkpoints: false });
    assert_eq!(a, ExecutionAction::Complete { keep_checkpoint: true });
}

#[test]
fn each_fault_stops_the_execution() {
    let start = ExecutionState::start(true);
    let (s, a) = execution_step(
        &start,
        ExecutionEvent::Admission { plan_matches_request: true, invocations: 0, in_frontier: true },
    );
    assert_eq!(a, ExecutionAction::Fail(ExecutionFault::ForeignOrEmptyPlan));
    assert_eq!(s.phase, ExecutionPhase::Failed);
    let (_, a) = execution_step(
        &start,
        ExecutionEvent::Admission { plan_matches_request: false, invocations: 1, in_frontier: true },
    );
    assert_eq!(a, ExecutionAction::Fail(ExecutionFault::ForeignOrEmptyPlan));
    let (_, a) = execution_step(
        &start,
        ExecutionEvent::Admission { plan_matches_request: true, invocations: 1, in_frontier: false },
    );
    assert_eq!(a, ExecutionAction::Fail(ExecutionFault::NotInFrontier));

    let (s, _) = accept_plan(&start, 1);
    let (_, a) = execution_step(
        &s,
        ExecutionEvent::StageResolved { registered: false, matches: true, deterministic: true, seeded: false },
    );
    assert_eq!(a, ExecutionAction::Fail(ExecutionFault::StageUnregistered));
    let (_, a) = execution_step(
        &s,
        ExecutionEvent::StageResolved { registered: true, matches: false, deterministic: true, seeded: false },
    );
    assert_eq!(a, ExecutionAction::Fail(ExecutionFault::InvocationMismatch));
    let (s, _) = execution_step(&s, resolved(false, false));
    let (_, a) = execution_step(&s, ExecutionEvent::EngineResponded { request_id_matches: false });
    assert_eq!(a, ExecutionAction::Fail(ExecutionFault::WrongResponseIdentity));
}

#[test]
fn fault_messages_name_the_rule() {
    assert_eq!(
        message(fault_error(ExecutionFault::StageUnregistered, "ocr")),
        "selected stage ocr is no longer registered"
    );
    assert_eq!(
        message(fault_error(ExecutionFault::ForeignOrEmptyPlan, "ocr")),
        "selected plan does not belong to this request or has no invocations"
    );
    assert_eq!(
        message(fault_error(ExecutionFault::NotInFrontier, "")),
        "selected plan is not in the current admissible frontier"
    );
    assert_eq!(
        message(fault_error(ExecutionFault::InvocationMismatch, "")),
        "selected invocation differs from the registered stage"
    );
    assert_eq!(
        message(fault_error(ExecutionFault::WrongResponseIdentity, "")),
        "engine response has the wrong request identity"
    );
}
