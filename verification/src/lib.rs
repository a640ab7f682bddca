//! Runtime-agnostic contracts for offline, evidence-preserving document extraction.
//!
//! Constructors enforce the same invariants as the persisted formats: callers cannot
//! create invalid quantities, digests, relative paths, or blob ranges through the
//! public API.

mod assoc;
mod blob;
mod canonical;
mod cli;
mod digest;
mod doctor;
mod durable;
mod engine;
mod enrichment;
mod execution;
mod error;
mod geometry;
mod hardware;
mod id;
mod ir;
mod manifest;
mod model_store;
mod order;
mod pdf;
mod planner;
mod protocol;
mod provenance;
mod render;
mod research;
mod quantity;
mod registry;
mod ranking;
mod reconcile;
mod resource;
mod router;
mod runtime;
mod scheduler;
mod schema;
mod delta;
mod state;
mod text;

pub use cli::{
    parse_from, Argument, ArgsError, CliErrorBody, CliErrorEnvelope, Command, Configuration,
    ConfigurationError, ConvertArgs, EnvValue, Environment, PipelineArgs, CLI_ERROR_VERSION, EXIT_ERROR, EXIT_SUCCESS,
};
pub use delta::apply_delta;
pub use doctor::{DoctorCheck, DoctorReport, DoctorStage, DoctorStatus};
pub use durable::{
    artifact_id, artifact_key, CacheHit, CacheKeyParts, Cacheability, CheckpointPolicy, CheckpointPolicyContext,
    DurableArtifactKind, DurableArtifactRef, DurableExecutionArtifacts, DurableNamespace,
    ReferenceCheckpointPolicy, MAX_DURABLE_ARTIFACT_BYTES, STORE_VERSION,
};
pub use enrichment::{
    atomic_scopes, coverage_complete, pareto_front, plan_combinations, plan_dominates,
    plan_frontier, plan_metrics, scope_covers, scope_label, scope_page_index, validate_request,
    EnrichmentRequest,
    validate_scope, CapabilityGoal, EnrichmentStageDescriptor, PlanMetrics, MAX_PARETO_PLANS,
};
pub use error::CoreError;
pub use execution::{
    execution_step, fault_error, CacheDecision, ExecutionAction, ExecutionEvent, ExecutionFault,
    ExecutionPhase, ExecutionState,
};
pub use schema::{
    current_schema_version, Compatibility, SchemaVersion, CURRENT_SCHEMA_MAJOR, CURRENT_SCHEMA_MINOR,
};
pub use quantity::{Bytes, MicroUsd, Millis, QuantityFault};
pub use canonical::{
    BackendId, Capability, DeviceId, DeviceKind, MediaType, PlacementPolicy, Profile,
};
pub use provenance::Stage;
pub use render::{escape_html, render_html, render_markdown, OutputFormat};
pub use reconcile::{reconcile_page, LayoutItem};
pub use registry::{BlobRegistry, OneBlob, RegisteredBlob};
pub use research::{
    CommandProvenance, ExperimentBudget, ExperimentLedger, ExperimentSpec, ProtectedArtifact,
    ResearchError, TrialRecord, TrialSpec, TrialStatus, TrialStep, next_trial_step, LEDGER_VERSION,
    SPEC_VERSION,
};
pub use router::{
    common_engine, f64_bits_less, guarded_decision, stump_route, training_thresholds,
    ArtifactSource, BaselinePolicy, DecisionSource, FeatureValue, Partition, Qualification,
    RouteClass, RouteDecision, RouteOutcome, RouterError, RouterEvaluation, RouterModel,
    RoutingDataset, RoutingFeatures, RoutingRecord, DATASET_VERSION, FEATURE_SCHEMA_VERSION,
    MODEL_VERSION,
};
pub use state::{
    find_page, has_region, CoverageEntry, DeltaDiagnostic, DeltaProducer, DocumentStateManifest,
    EvidenceDelta, LayerOwner, MaterializedIrCheckpoint, OwnedSourceLayer, PageDelta,
    PageRegionRef, RefinementScope, RegionEvidenceAddition, RegionRefinementTarget,
    SelectionHint, DOCUMENT_STATE_SCHEMA, EVIDENCE_DELTA_SCHEMA,
};
pub use resource::{Estimate, EstimateConfidence, EstimateSource, ResourceEstimate};
pub use digest::Sha256Digest;
pub use geometry::{CoordinateSpace, Unit};
pub use hardware::{inventory_from, parse_linux_meminfo, parse_linux_physical_cpus};
pub use id::{
    ArtifactId, DocumentId, DocumentStateId, EvidenceDeltaId, EvidenceId, LayerId, ModelId,
    PageId, RegionId, RequestId,
};
pub use ir::{
    Document, Evidence, EvidenceContent, IrError, Page, Placement, ReadingOrderEdge, Region, RegionKind, RenderArtifact,
    SelectedView, SelectionReason, SourceLayer, SourceLayerKind, TableCell,
};
pub use manifest::{
    AcceptanceRequirement, LicenseMetadata, ModelFile, ModelManifest, RelativePath,
};
pub use model_store::{check_install, verify_file, GcReport, InstalledModel, ModelStoreError};
pub use blob::{BlobId, BlobRange, ScopedBlob};
pub use engine::{
    check_source_text_evidence, unknown_inventory, BlobResolver, CancellationToken, DependencyHealth, DeviceInventory, EngineCandidate,
    EngineCompatibility, EngineDescriptor, EngineError, EngineErrorCategory, ExecutionContext,
    HardwareInventory, HealthReport, HealthRequest, HealthStatus, NetworkUse, TraceSink,
};
pub use pdf::{
    candidate_kinds, content_hint, content_hint_name, count_operators, high_value_candidate,
    native_character_count, normalize_native_text, repeated_margin_text_hints, script_hints,
    token_simhash, OperatorCounts,
    PageContentHint, PdfError,
    PdfInput, PdfLimits, RasterPage, RepeatedMarginTextHint,
};
pub use planner::{
    decide, plan, CandidateDecision, CandidateInput, ModelAvailability, PlannerPolicy,
    PlannerReason, PlanningReport, ReasonCode,
};
pub use protocol::{
    current_protocol_version, ClientHello, ProtocolVersion, ServerHello, VersionRange,
    MAX_FRAME_LENGTH, PREAMBLE,
};
pub use runtime::{
    ocr_covers_native, plan_for, quality_characters, reconciled_selection,
    sequential_reading_order, ConversionOptions, ConversionPlan, ConversionTrace,
    ExecutionMode, PageText, PlanDecision, PlannedStage, RuntimeError, TraceEvent,
};
pub use scheduler::{
    Accounting, LeaseMeasurement, LeaseRequest, NormalizedRequest, ResourceLease, Scheduler,
    SchedulerConfig, SchedulerError, SchedulerSnapshot, WarmResidency,
};
