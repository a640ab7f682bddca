//! Synchronous, transport-independent engine semantics.

use std::collections::{BTreeMap, BTreeSet};
use std::sync::atomic::AtomicBool;
use std::sync::Arc;
use std::time::Instant;

use vstd::prelude::*;

use crate::blob::ScopedBlob;
use crate::canonical::{owned, BackendId, Capability, DeviceId, DeviceKind};
use crate::quantity::Bytes;
use crate::resource::{Estimate, EstimateSource, ResourceEstimate};
use crate::text::{chars_of, is_digit, is_lower, trim, trim_range};

verus! {

/// Normalized request parameter containing text hypotheses owned by the atomic target region.
pub const SOURCE_TEXT_EVIDENCE_PARAMETER: &'static str = "ferrodoc.source_text_evidence";

/// Maximum exact text bytes supplied to one atomic specialist invocation (4 MiB).
pub const MAX_SOURCE_TEXT_EVIDENCE_BYTES: usize = 4194304;

/// Maximum text hypotheses supplied to one atomic specialist invocation.
pub const MAX_SOURCE_TEXT_EVIDENCE_RECORDS: usize = 4096;

/// Engine compatibility for one backend across physical device families.
#[derive(Debug, Clone, PartialEq, Eq)]
pub struct EngineCompatibility {
    /// Inference or implementation backend.
    pub backend: BackendId,
    /// Compatible physical device families.
    pub devices: BTreeSet<DeviceKind>,
}

/// Whether an engine can disclose document data over a network.
#[derive(Debug, Clone, Copy, PartialEq, Eq)]
pub enum NetworkUse {
    /// Engine never performs network I/O.
    Never,
    /// Network use is optional and policy-controlled.
    Optional,
    /// Engine cannot execute without network access.
    Required,
}

/// Discoverable semantic descriptor for an engine implementation.
#[derive(Debug, Clone, PartialEq, Eq)]
pub struct EngineDescriptor {
    /// Stable lowercase engine identifier.
    pub id: String,
    /// Engine semantic version.
    pub version: String,
    /// Capabilities the engine can execute.
    pub capabilities: BTreeSet<Capability>,
    /// Compatible backend and device axes.
    pub compatibility: Vec<EngineCompatibility>,
    /// Whether identical deterministic inputs are expected to yield identical responses.
    pub deterministic: bool,
    /// Declared network behavior.
    pub network_use: NetworkUse,
    /// Maximum safe concurrent requests for one instance.
    pub max_concurrency: u32,
}

/// A character allowed in engine identifiers.
pub open spec fn engine_id_char(c: char) -> bool {
    is_lower(c) || is_digit(c) || c == '.' || c == '_' || c == '-'
}

/// A nonempty identifier of lowercase letters, digits, '.', '_', or '-'.
pub open spec fn valid_engine_id(s: Seq<char>) -> bool {
    s.len() > 0 && forall|i: int| 0 <= i < s.len() ==> #[trigger] engine_id_char(s[i])
}

/// The identity part of descriptor validity: a valid ID and a version that is not blank.
pub open spec fn descriptor_identity_valid(d: EngineDescriptor) -> bool {
    valid_engine_id(d.id@) && trim(d.version@).len() > 0
}

/// The shape part of descriptor validity: something to do, somewhere to do it, and capacity.
pub open spec fn descriptor_shape_valid(d: EngineDescriptor) -> bool {
    &&& !d.capabilities@.is_empty()
    &&& d.compatibility@.len() > 0
    &&& forall|i: int| 0 <= i < d.compatibility@.len() ==> !(
    #[trigger] d.compatibility@[i]).devices@.is_empty()
    &&& d.max_concurrency > 0
}

impl EngineDescriptor {
    /// Validates that a descriptor is usable for candidate enumeration.
    pub fn validate(&self) -> (r: Result<(), EngineError>)
        ensures
            descriptor_identity_valid(*self) && descriptor_shape_valid(*self) ==> r is Ok,
            !descriptor_identity_valid(*self) ==> r is Err && r->Err_0.category
                == EngineErrorCategory::InvalidRequest && !r->Err_0.retryable,
            descriptor_identity_valid(*self) && !descriptor_shape_valid(*self) ==> r is Err
                && r->Err_0.category == EngineErrorCategory::InvalidRequest
                && !r->Err_0.retryable,
    {
        let id = chars_of(self.id.as_str());
        let mut valid_id = id.len() > 0;
        let mut i: usize = 0;
        while valid_id && i < id.len()
            invariant
                i <= id@.len(),
                id@ == self.id@,
                valid_id ==> id@.len() > 0,
                valid_id ==> forall|j: int| 0 <= j < i ==> #[trigger] engine_id_char(id@[j]),
                !valid_id ==> !valid_engine_id(self.id@),
            decreases id@.len() - i,
        {
            let c = id[i];
            if !(('a' <= c && c <= 'z') || ('0' <= c && c <= '9') || c == '.' || c == '_' || c
                == '-') {
                assert(!engine_id_char(id@[i as int]));
                valid_id = false;
            }
            i = i + 1;
        }
        let version = chars_of(self.version.as_str());
        assert(version@.subrange(0, version@.len() as int) == version@);
        let (a, b) = trim_range(version.as_slice(), 0, version.len());
        if !valid_id || a == b {
            return Err(
                EngineError::new(
                    EngineErrorCategory::InvalidRequest,
                    false,
                    "engine descriptor has an invalid ID or empty version",
                ),
            );
        }
        let mut empty_devices = false;
        let mut k: usize = 0;
        while k < self.compatibility.len()
            invariant
                k <= self.compatibility@.len(),
                empty_devices <==> exists|j: int|
                    0 <= j < k && (#[trigger] self.compatibility@[j]).devices@.is_empty(),
            decreases self.compatibility@.len() - k,
        {
            if self.compatibility[k].devices.is_empty() {
                empty_devices = true;
            }
            k = k + 1;
        }
        if self.capabilities.is_empty() || self.compatibility.len() == 0 || empty_devices
            || self.max_concurrency == 0 {
            return Err(
                EngineError::new(
                    EngineErrorCategory::InvalidRequest,
                    false,
                    "engine descriptor has empty capabilities, compatibility, or concurrency",
                ),
            );
        }
        Ok(())
    }
}

/// One concrete backend/device placement and its estimate.
#[derive(Debug, Clone, PartialEq, Eq)]
pub struct EngineCandidate {
    /// Engine identifier.
    pub engine_id: String,
    /// Selected backend.
    pub backend: BackendId,
    /// Selected physical device.
    pub device: DeviceId,
    /// Resource and quality estimate.
    pub resources: ResourceEstimate,
}

/// Runtime-independent facts about one physical device.
#[derive(Debug, Clone, PartialEq, Eq)]
pub struct DeviceInventory {
    /// Physical device identity.
    pub id: DeviceId,
    /// Total device memory.
    pub memory_total: Estimate<Bytes>,
    /// Currently available device memory.
    pub memory_available: Estimate<Bytes>,
    /// Deterministically ordered provider metadata.
    pub metadata: BTreeMap<String, String>,
}

/// Hardware inventory supplied by the runtime to candidate estimation.
#[derive(Debug, Clone, PartialEq, Eq)]
pub struct HardwareInventory {
    /// Logical CPU count when known.
    pub logical_cpus: Estimate<u32>,
    /// Physical CPU core count when the operating system exposes it.
    pub physical_cpus: Estimate<u32>,
    /// Provenance for the CPU topology values.
    pub cpu_source: Estimate<EstimateSource>,
    /// Total host RAM.
    pub ram_total: Estimate<Bytes>,
    /// Currently available host RAM.
    pub ram_available: Estimate<Bytes>,
    /// Provenance for the host RAM values.
    pub ram_source: Estimate<EstimateSource>,
    /// Physical compute devices.
    pub devices: Vec<DeviceInventory>,
}

/// Returns an honest inventory fixture with every host quantity unknown.
pub fn unknown_inventory() -> (i: HardwareInventory)
    ensures
        i.logical_cpus is Unknown,
        i.physical_cpus is Unknown,
        i.cpu_source is Unknown,
        i.ram_total is Unknown,
        i.ram_available is Unknown,
        i.ram_source is Unknown,
        i.devices@.len() == 0,
{
    HardwareInventory {
        logical_cpus: Estimate::Unknown,
        physical_cpus: Estimate::Unknown,
        cpu_source: Estimate::Unknown,
        ram_total: Estimate::Unknown,
        ram_available: Estimate::Unknown,
        ram_source: Estimate::Unknown,
        devices: Vec::new(),
    }
}

/// Health-check depth requested by the host.
#[derive(Debug, Clone, Copy, PartialEq, Eq)]
pub enum HealthRequest {
    /// Check only immediate readiness.
    Shallow,
    /// Check optional dependencies and model readiness without inference.
    Dependencies,
}

/// Categorized engine health.
#[derive(Debug, Clone, Copy, PartialEq, Eq)]
pub enum HealthStatus {
    /// Ready for declared operations.
    Healthy,
    /// Usable with a documented degradation.
    Degraded,
    /// Not currently usable.
    Unavailable,
}

/// One dependency readiness item.
#[derive(Debug, Clone, PartialEq, Eq)]
pub struct DependencyHealth {
    /// Stable dependency identifier.
    pub id: String,
    /// Readiness status.
    pub status: HealthStatus,
    /// Redacted diagnostic message.
    pub message: String,
}

/// Engine health result.
#[derive(Debug, Clone, PartialEq, Eq)]
pub struct HealthReport {
    /// Overall readiness.
    pub status: HealthStatus,
    /// Dependency-level results.
    pub dependencies: Vec<DependencyHealth>,
    /// Redacted summary.
    pub message: String,
}

/// Stable engine failure category.
#[derive(Debug, Clone, Copy, PartialEq, Eq)]
pub enum EngineErrorCategory {
    /// Request violates the semantic contract.
    InvalidRequest,
    /// Requested operation is not supported.
    Unsupported,
    /// Engine is not currently available.
    Unavailable,
    /// A dependency is absent or incompatible.
    Dependency,
    /// A required model is absent or invalid.
    Model,
    /// Resource admission or execution failed.
    ResourceExhausted,
    /// Caller cancellation was observed.
    Cancelled,
    /// Deadline expired.
    DeadlineExceeded,
    /// Process or framing protocol failed.
    Protocol,
    /// Unclassified engine failure.
    Internal,
}

/// Structured engine error with explicit retryability.
#[derive(Debug, Clone, PartialEq, Eq)]
pub struct EngineError {
    /// Stable category.
    pub category: EngineErrorCategory,
    /// Whether retry under the same semantic request may succeed.
    pub retryable: bool,
    /// Redacted diagnostic message.
    pub message: String,
}

impl EngineError {
    /// Creates a structured error.
    pub fn new(category: EngineErrorCategory, retryable: bool, message: &str) -> (e: Self)
        ensures
            e.category == category,
            e.retryable == retryable,
            e.message@ == message@,
    {
        EngineError { category, retryable, message: message.to_owned() }
    }
}

/// The total UTF-8 length of the first `n` texts, each as `str::len` reports it.
pub open spec fn utf8_total(texts: Seq<String>, n: nat) -> int
    decreases n,
{
    if n == 0 {
        0
    } else {
        utf8_total(texts, (n - 1) as nat) + (vstd::utf8::encode_utf8(texts[n - 1]@).len() as usize)
    }
}

/// Longer prefixes never hold fewer bytes.
proof fn lemma_utf8_total_grows(texts: Seq<String>, i: nat, n: nat)
    requires
        i <= n,
    ensures
        utf8_total(texts, i) <= utf8_total(texts, n),
    decreases n - i,
{
    if i < n {
        lemma_utf8_total_grows(texts, i, (n - 1) as nat);
    }
}

/// Checks decoded source-text context against the atomic invocation limits: at most
/// `MAX_SOURCE_TEXT_EVIDENCE_RECORDS` texts and `MAX_SOURCE_TEXT_EVIDENCE_BYTES` bytes of
/// UTF-8 text in all. Both refusals are non-retryable resource exhaustion.
pub fn check_source_text_evidence(texts: &[String]) -> (r: Result<(), EngineError>)
    ensures
        r is Ok <==> texts@.len() <= MAX_SOURCE_TEXT_EVIDENCE_RECORDS && utf8_total(
            texts@,
            texts@.len(),
        ) <= MAX_SOURCE_TEXT_EVIDENCE_BYTES,
        r matches Err(e) ==> e.category == EngineErrorCategory::ResourceExhausted && !e.retryable
            && e.message@ == if utf8_total(texts@, texts@.len()) > usize::MAX {
            "source text evidence size overflow"@
        } else {
            "source text evidence exceeds the atomic context limit"@
        },
{
    let mut total: usize = 0;
    let mut i: usize = 0;
    while i < texts.len()
        invariant
            i <= texts@.len(),
            total == utf8_total(texts@, i as nat),
        decreases texts@.len() - i,
    {
        let length = texts[i].as_str().len();
        match total.checked_add(length) {
            Some(t) => {
                total = t;
            },
            None => {
                proof {
                    lemma_utf8_total_grows(texts@, (i + 1) as nat, texts@.len());
                }
                return Err(
                    EngineError::new(
                        EngineErrorCategory::ResourceExhausted,
                        false,
                        "source text evidence size overflow",
                    ),
                );
            },
        }
        i = i + 1;
    }
    if texts.len() > MAX_SOURCE_TEXT_EVIDENCE_RECORDS || total > MAX_SOURCE_TEXT_EVIDENCE_BYTES {
        return Err(
            EngineError::new(
                EngineErrorCategory::ResourceExhausted,
                false,
                "source text evidence exceeds the atomic context limit",
            ),
        );
    }
    Ok(())
}

#[verifier::external_type_specification]
#[verifier::external_body]
pub struct ExInstant(Instant);

/// Calls `Instant::now`; the clock is outside the library.
#[verifier::external_body]
fn instant_now() -> Instant {
    Instant::now()
}

/// Compares two instants with `Instant`'s `PartialOrd`; no clock reading is promised.
#[verifier::external_body]
fn instant_reached(now: &Instant, deadline: &Instant) -> bool {
    *now >= *deadline
}

/// Cooperative cancellation flag shared with blocking engine code.
#[derive(Debug, Clone)]
pub struct CancellationToken(Arc<AtomicBool>);

impl CancellationToken {
    /// Creates a token that is not yet cancelled.
    pub fn new() -> Self {
        CancellationToken(Arc::new(AtomicBool::new(false)))
    }

    /// Requests cancellation.
    pub fn cancel(&self) {
        self.0.store(true, std::sync::atomic::Ordering::Release);
    }

    /// Returns whether cancellation was requested.
    pub fn is_cancelled(&self) -> bool {
        self.0.load(std::sync::atomic::Ordering::Acquire)
    }
}

impl Default for CancellationToken {
    fn default() -> Self {
        CancellationToken::new()
    }
}

/// Host-controlled resolver for immutable scoped blobs.
pub trait BlobResolver {
    /// Resolves only the approved range after host-side scope and digest checks.
    fn resolve(&self, blob: &ScopedBlob) -> Result<Vec<u8>, EngineError>;
}

/// Structured trace sink that does not expose a logging runtime to engines.
pub trait TraceSink {
    /// Records a deterministic event code and redacted fields.
    fn event(&self, code: &str, fields: &BTreeMap<String, String>);
}

/// Non-serializable execution controls supplied by the host.
pub struct ExecutionContext<'a, B: BlobResolver, T: TraceSink> {
    /// Cooperative cancellation token.
    pub cancellation: CancellationToken,
    /// Absolute host deadline.
    pub deadline: Option<Instant>,
    /// Scoped blob resolver.
    pub blobs: &'a B,
    /// Structured trace sink.
    pub trace: &'a T,
}

/// The checkpoint verdict once cancellation and the deadline have been observed.
pub open spec fn checkpoint_spec(cancelled: bool, deadline_passed: bool) -> Option<(EngineErrorCategory, bool)> {
    if cancelled {
        Some((EngineErrorCategory::Cancelled, false))
    } else if deadline_passed {
        Some((EngineErrorCategory::DeadlineExceeded, true))
    } else {
        None
    }
}

/// Decides a checkpoint from the observed cancellation flag and deadline.
pub fn checkpoint_verdict(cancelled: bool, deadline_passed: bool) -> (r: Result<(), EngineError>)
    ensures
        match checkpoint_spec(cancelled, deadline_passed) {
            None => r is Ok,
            Some((category, retryable)) => r is Err && r->Err_0.category == category
                && r->Err_0.retryable == retryable && r->Err_0.message@ == if cancelled {
                "request cancelled"@
            } else {
                "request deadline exceeded"@
            },
        },
{
    if cancelled {
        return Err(EngineError::new(EngineErrorCategory::Cancelled, false, "request cancelled"));
    }
    if deadline_passed {
        return Err(
            EngineError::new(EngineErrorCategory::DeadlineExceeded, true, "request deadline exceeded"),
        );
    }
    Ok(())
}

impl<'a, B: BlobResolver, T: TraceSink> ExecutionContext<'a, B, T> {
    /// Fails when cancellation or the deadline has been observed.
    pub fn checkpoint(&self) -> (r: Result<(), EngineError>)
        ensures
            r matches Err(e) ==> (e.category == EngineErrorCategory::Cancelled && !e.retryable
                && e.message@ == "request cancelled"@) || (e.category
                == EngineErrorCategory::DeadlineExceeded && e.retryable && e.message@
                == "request deadline exceeded"@),
            self.deadline is None && r is Err ==> r->Err_0.category == EngineErrorCategory::Cancelled,
    {
        let cancelled = self.cancellation.is_cancelled();
        let passed = match &self.deadline {
            Some(deadline) => {
                let now = instant_now();
                instant_reached(&now, deadline)
            },
            None => false,
        };
        checkpoint_verdict(cancelled, passed)
    }
}

} // verus!
