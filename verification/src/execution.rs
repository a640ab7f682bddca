//! The decisions of executing a selected enrichment plan, as a step function.
//!
//! Executing a plan alternates outside work (looking a stage up, consulting the durable
//! store, running an engine, building and persisting deltas, materializing the state)
//! with decisions. The decisions are made here, from the state and the event that the
//! outside work reports, and answered by the next action to perform.

use vstd::prelude::*;

use crate::canonical::{owned, push_str};
use crate::runtime::RuntimeError;

verus! {

/// How an invocation's delta was obtained, as recorded with the durable reuse record.
#[derive(Debug, Clone, Copy, PartialEq, Eq, Structural)]
pub enum CacheDecision {
    /// A verified delta was reused from the durable store.
    Hit,
    /// The store had no delta; the engine ran and its delta was stored.
    Miss,
    /// The stage cannot promise repeatable semantics; the engine ran and nothing was stored.
    Uncacheable,
    /// No durable store is configured; the engine ran.
    NotConfigured,
}

/// Why an execution stopped.
#[derive(Debug, Clone, Copy, PartialEq, Eq, Structural)]
pub enum ExecutionFault {
    /// The plan answers another request, or holds no invocation.
    ForeignOrEmptyPlan,
    /// The plan is not among the plans the planner offers now.
    NotInFrontier,
    /// The invocation's stage is no longer registered.
    StageUnregistered,
    /// The invocation names another engine, capability or scope than its stage.
    InvocationMismatch,
    /// The engine answered with another request identity.
    WrongResponseIdentity,
}

/// Where an execution stands.
#[derive(Debug, Clone, Copy, PartialEq, Eq, Structural)]
pub enum ExecutionPhase {
    /// Waiting for the plan to be checked against the request and the frontier.
    Admitting,
    /// Waiting for the current invocation's stage to be looked up.
    Resolving,
    /// Waiting for the durable store's answer.
    Looking,
    /// Waiting for the engine's response.
    Running,
    /// Waiting for the delta built from the engine's response to be recorded.
    Building,
    /// Waiting for the reused delta to be validated and recorded.
    Reusing,
    /// Waiting for the state to be materialized.
    Materializing,
    /// Finished.
    Done,
    /// Stopped by a fault.
    Failed,
}

/// The state of an execution.
#[derive(Debug, Clone, Copy, PartialEq, Eq, Structural)]
pub struct ExecutionState {
    /// Where the execution stands.
    pub phase: ExecutionPhase,
    /// Index of the current invocation.
    pub index: usize,
    /// Number of invocations in the plan.
    pub total: usize,
    /// Whether a durable store is configured.
    pub durable: bool,
    /// Whether the current invocation's delta is to be stored.
    pub persist: bool,
    /// How the current invocation's delta is recorded.
    pub record: CacheDecision,
}

/// What the outside work reports.
#[derive(Debug, Clone, Copy, PartialEq, Eq, Structural)]
pub enum ExecutionEvent {
    /// The request was validated and the plan compared with the request and the frontier.
    Admission {
        /// The plan answers this request.
        plan_matches_request: bool,
        /// Number of invocations in the plan.
        invocations: usize,
        /// The plan is among the plans offered now.
        in_frontier: bool,
    },
    /// The current invocation's stage was looked up.
    StageResolved {
        /// The stage is registered.
        registered: bool,
        /// Engine, capability and scope agree with the stage.
        matches: bool,
        /// The engine declares itself deterministic.
        deterministic: bool,
        /// The request carries a deterministic seed.
        seeded: bool,
    },
    /// The durable store was consulted.
    DurableLookup {
        /// It held a delta for the invocation's key.
        hit: bool,
    },
    /// The engine answered.
    EngineResponded {
        /// The response carries the request's identity.
        request_id_matches: bool,
    },
    /// The current invocation's delta was recorded.
    DeltaRecorded,
    /// The state was materialized, and the checkpoint policy asked where one is configured.
    Materialized {
        /// The checkpoint policy's answer.
        policy_checkpoints: bool,
    },
}

/// What to do next.
#[derive(Debug, Clone, Copy, PartialEq, Eq, Structural)]
pub enum ExecutionAction {
    /// Stop with this fault.
    Fail(ExecutionFault),
    /// Look up the stage of the invocation at this index.
    ResolveStage { index: usize },
    /// Consult the durable store for the invocation's key.
    ConsultDurable,
    /// Validate and record the delta the store held, as a cache hit.
    ReuseCachedDelta,
    /// Run the engine on the invocation's request.
    RunEngine,
    /// Build the delta from the response, store it if `persist`, and record `record`.
    BuildDelta { persist: bool, record: CacheDecision },
    /// Materialize the resulting state; ask the checkpoint policy if `consult_policy`.
    Materialize { consult_policy: bool },
    /// Finish; keep the materialized checkpoint in the state manifest if `keep_checkpoint`.
    Complete { keep_checkpoint: bool },
    /// The event is not one the current phase awaits; nothing changed.
    Wait,
}

/// The text of a fault; the stage identity is named where the stage is missing.
pub open spec fn fault_text(f: ExecutionFault, stage_id: Seq<char>) -> Seq<char> {
    match f {
        ExecutionFault::ForeignOrEmptyPlan => "selected plan does not belong to this request or has no invocations"@,
        ExecutionFault::NotInFrontier => "selected plan is not in the current admissible frontier"@,
        ExecutionFault::StageUnregistered => "selected stage "@ + stage_id + " is no longer registered"@,
        ExecutionFault::InvocationMismatch => "selected invocation differs from the registered stage"@,
        ExecutionFault::WrongResponseIdentity => "engine response has the wrong request identity"@,
    }
}

/// The error a fault stops the execution with.
pub fn fault_error(f: ExecutionFault, stage_id: &str) -> (e: RuntimeError)
    ensures
        e matches RuntimeError::InvalidEnrichment(s) && s@ == fault_text(f, stage_id@),
{
    let s = match f {
        ExecutionFault::ForeignOrEmptyPlan => owned("selected plan does not belong to this request or has no invocations"),
        ExecutionFault::NotInFrontier => owned("selected plan is not in the current admissible frontier"),
        ExecutionFault::StageUnregistered => {
            let mut s = owned("selected stage ");
            push_str(&mut s, stage_id);
            push_str(&mut s, " is no longer registered");
            s
        },
        ExecutionFault::InvocationMismatch => owned("selected invocation differs from the registered stage"),
        ExecutionFault::WrongResponseIdentity => owned("engine response has the wrong request identity"),
    };
    RuntimeError::InvalidEnrichment(s)
}

/// The state an execution starts in.
pub open spec fn start_state(durable: bool) -> ExecutionState {
    ExecutionState {
        phase: ExecutionPhase::Admitting,
        index: 0,
        total: 0,
        durable,
        persist: false,
        record: CacheDecision::NotConfigured,
    }
}

/// The state after a fault.
pub open spec fn failed(s: ExecutionState, f: ExecutionFault) -> (ExecutionState, ExecutionAction) {
    (ExecutionState { phase: ExecutionPhase::Failed, ..s }, ExecutionAction::Fail(f))
}

/// Running the engine for an invocation whose delta is stored if `persist`.
pub open spec fn run_engine(s: ExecutionState, persist: bool, record: CacheDecision) -> (
    ExecutionState,
    ExecutionAction,
) {
    (
        ExecutionState { phase: ExecutionPhase::Running, persist, record, ..s },
        ExecutionAction::RunEngine,
    )
}

/// The next state and action. A cacheable invocation (deterministic engine, or a
/// deterministic seed) consults the durable store where one is configured; a hit is
/// reused, a miss runs the engine and stores its delta. Any other invocation runs the
/// engine and stores nothing. After the last invocation the state is materialized, and
/// the checkpoint kept when no durable store is configured or the policy asks for it.
pub open spec fn execution_next(s: ExecutionState, e: ExecutionEvent) -> (ExecutionState, ExecutionAction) {
    let wait = (s, ExecutionAction::Wait);
    match e {
        ExecutionEvent::Admission { plan_matches_request, invocations, in_frontier } => {
            if !(s.phase is Admitting) {
                wait
            } else if !plan_matches_request || invocations == 0 {
                failed(s, ExecutionFault::ForeignOrEmptyPlan)
            } else if !in_frontier {
                failed(s, ExecutionFault::NotInFrontier)
            } else {
                (
                    ExecutionState { phase: ExecutionPhase::Resolving, index: 0, total: invocations, ..s },
                    ExecutionAction::ResolveStage { index: 0 },
                )
            }
        },
        ExecutionEvent::StageResolved { registered, matches, deterministic, seeded } => {
            let cacheable = deterministic || seeded;
            if !(s.phase is Resolving) {
                wait
            } else if !registered {
                failed(s, ExecutionFault::StageUnregistered)
            } else if !matches {
                failed(s, ExecutionFault::InvocationMismatch)
            } else if cacheable && s.durable {
                (ExecutionState { phase: ExecutionPhase::Looking, ..s }, ExecutionAction::ConsultDurable)
            } else if s.durable {
                run_engine(s, false, CacheDecision::Uncacheable)
            } else {
                run_engine(s, false, CacheDecision::NotConfigured)
            }
        },
        ExecutionEvent::DurableLookup { hit } => {
            if !(s.phase is Looking) {
                wait
            } else if hit {
                (
                    ExecutionState { phase: ExecutionPhase::Reusing, persist: false, record: CacheDecision::Hit, ..s },
                    ExecutionAction::ReuseCachedDelta,
                )
            } else {
                run_engine(s, true, CacheDecision::Miss)
            }
        },
        ExecutionEvent::EngineResponded { request_id_matches } => {
            if !(s.phase is Running) {
                wait
            } else if !request_id_matches {
                failed(s, ExecutionFault::WrongResponseIdentity)
            } else {
                (
                    ExecutionState { phase: ExecutionPhase::Building, ..s },
                    ExecutionAction::BuildDelta { persist: s.persist, record: s.record },
                )
            }
        },
        ExecutionEvent::DeltaRecorded => {
            if !(s.phase is Building || s.phase is Reusing) {
                wait
            } else if s.index + 1 < s.total {
                (
                    ExecutionState { phase: ExecutionPhase::Resolving, index: (s.index + 1) as usize, ..s },
                    ExecutionAction::ResolveStage { index: (s.index + 1) as usize },
                )
            } else {
                (
                    ExecutionState { phase: ExecutionPhase::Materializing, ..s },
                    ExecutionAction::Materialize { consult_policy: s.durable },
                )
            }
        },
        ExecutionEvent::Materialized { policy_checkpoints } => {
            if !(s.phase is Materializing) {
                wait
            } else {
                (
                    ExecutionState { phase: ExecutionPhase::Done, ..s },
                    ExecutionAction::Complete { keep_checkpoint: !s.durable || policy_checkpoints },
                )
            }
        },
    }
}

impl ExecutionState {
    /// The state an execution starts in, with or without a durable store.
    pub fn start(durable: bool) -> (s: Self)
        ensures
            s == start_state(durable),
    {
        ExecutionState {
            phase: ExecutionPhase::Admitting,
            index: 0,
            total: 0,
            durable,
            persist: false,
            record: CacheDecision::NotConfigured,
        }
    }
}

/// Decides the next state and action of an execution from its state and an event.
pub fn execution_step(state: &ExecutionState, event: ExecutionEvent) -> (r: (ExecutionState, ExecutionAction))
    requires
        execution_wf(*state),
    ensures
        r == execution_next(*state, event),
{
    let s = *state;
    let wait = (s, ExecutionAction::Wait);
    match event {
        ExecutionEvent::Admission { plan_matches_request, invocations, in_frontier } => {
            if !matches!(s.phase, ExecutionPhase::Admitting) {
                wait
            } else if !plan_matches_request || invocations == 0 {
                (ExecutionState { phase: ExecutionPhase::Failed, ..s }, ExecutionAction::Fail(ExecutionFault::ForeignOrEmptyPlan))
            } else if !in_frontier {
                (ExecutionState { phase: ExecutionPhase::Failed, ..s }, ExecutionAction::Fail(ExecutionFault::NotInFrontier))
            } else {
                (
                    ExecutionState { phase: ExecutionPhase::Resolving, index: 0, total: invocations, ..s },
                    ExecutionAction::ResolveStage { index: 0 },
                )
            }
        },
        ExecutionEvent::StageResolved { registered, matches, deterministic, seeded } => {
            let cacheable = deterministic || seeded;
            if !matches!(s.phase, ExecutionPhase::Resolving) {
                wait
            } else if !registered {
                (ExecutionState { phase: ExecutionPhase::Failed, ..s }, ExecutionAction::Fail(ExecutionFault::StageUnregistered))
            } else if !matches {
                (ExecutionState { phase: ExecutionPhase::Failed, ..s }, ExecutionAction::Fail(ExecutionFault::InvocationMismatch))
            } else if cacheable && s.durable {
                (ExecutionState { phase: ExecutionPhase::Looking, ..s }, ExecutionAction::ConsultDurable)
            } else {
                let record = if s.durable { CacheDecision::Uncacheable } else { CacheDecision::NotConfigured };
                (
                    ExecutionState { phase: ExecutionPhase::Running, persist: false, record, ..s },
                    ExecutionAction::RunEngine,
                )
            }
        },
        ExecutionEvent::DurableLookup { hit } => {
            if !matches!(s.phase, ExecutionPhase::Looking) {
                wait
            } else if hit {
                (
                    ExecutionState { phase: ExecutionPhase::Reusing, persist: false, record: CacheDecision::Hit, ..s },
                    ExecutionAction::ReuseCachedDelta,
                )
            } else {
                (
                    ExecutionState { phase: ExecutionPhase::Running, persist: true, record: CacheDecision::Miss, ..s },
                    ExecutionAction::RunEngine,
                )
            }
        },
        ExecutionEvent::EngineResponded { request_id_matches } => {
            if !matches!(s.phase, ExecutionPhase::Running) {
                wait
            } else if !request_id_matches {
                (ExecutionState { phase: ExecutionPhase::Failed, ..s }, ExecutionAction::Fail(ExecutionFault::WrongResponseIdentity))
            } else {
                (
                    ExecutionState { phase: ExecutionPhase::Building, ..s },
                    ExecutionAction::BuildDelta { persist: s.persist, record: s.record },
                )
            }
        },
        ExecutionEvent::DeltaRecorded => {
            if !(matches!(s.phase, ExecutionPhase::Building) || matches!(s.phase, ExecutionPhase::Reusing)) {
                wait
            } else if s.index + 1 < s.total {
                (
                    ExecutionState { phase: ExecutionPhase::Resolving, index: s.index + 1, ..s },
                    ExecutionAction::ResolveStage { index: s.index + 1 },
                )
            } else {
                (
                    ExecutionState { phase: ExecutionPhase::Materializing, ..s },
                    ExecutionAction::Materialize { consult_policy: s.durable },
                )
            }
        },
        ExecutionEvent::Materialized { policy_checkpoints } => {
            if !matches!(s.phase, ExecutionPhase::Materializing) {
                wait
            } else {
                (
                    ExecutionState { phase: ExecutionPhase::Done, ..s },
                    ExecutionAction::Complete { keep_checkpoint: !s.durable || policy_checkpoints },
                )
            }
        },
    }
}

/// What holds of every state an execution reaches: the current invocation lies within
/// the plan while one is under way, and a delta is only stored when a durable store is
/// configured and the invocation missed it.
pub open spec fn execution_wf(s: ExecutionState) -> bool {
    &&& (s.phase is Resolving || s.phase is Looking || s.phase is Running || s.phase is Building
        || s.phase is Reusing) ==> s.index < s.total
    &&& s.persist ==> (s.durable && s.record == CacheDecision::Miss)
    &&& s.phase is Looking ==> s.durable
    &&& (s.phase is Running || s.phase is Building) ==> (s.record != CacheDecision::Hit)
}

/// Every step keeps the execution well formed; in particular the engine never runs for
/// an invocation whose delta was reused, and nothing is stored without a durable store.
pub proof fn lemma_step_keeps_wf(s: ExecutionState, e: ExecutionEvent)
    requires
        execution_wf(s),
    ensures
        execution_wf(execution_next(s, e).0),
{
}

/// The start state is well formed.
pub proof fn lemma_start_wf(durable: bool)
    ensures
        execution_wf(start_state(durable)),
{
}

} // verus!
