//! Deterministic worker and memory leases with bounded backpressure.
//!
//! The scheduler holds plain accounting and makes every admission decision; a host that
//! shares it between threads wraps it in a lock and performs the waiting itself.

use vstd::prelude::*;

use crate::assoc::{
    assoc, has_key, keys_unique, lemma_assoc_absent, lemma_assoc_found, lemma_has_key_iff_assoc,
    lemma_map_of_at, lemma_map_of_insert, lemma_map_of_len, lemma_map_of_remove,
    lemma_map_of_update, map_of,
};
use crate::canonical::{lemma_device_view_injective, DeviceId, DeviceKind};
use crate::digest::{lemma_digest_view_injective, Sha256Digest};
use crate::engine::CancellationToken;
use crate::quantity::{lemma_bytes_view_injective, Bytes};
use crate::resource::Estimate;

verus! {

broadcast use lemma_bytes_view_injective, lemma_device_view_injective, lemma_digest_view_injective, Bytes::lemma_spec_new;

/// Scheduler hard capacities.
#[derive(Debug, Clone, PartialEq, Eq)]
pub struct SchedulerConfig {
    /// Maximum simultaneous blocking engine calls.
    pub cpu_workers: u32,
    /// Host RAM available to scheduled engine work.
    pub ram_budget: Bytes,
    /// Per-device VRAM capacities; each device appears at most once.
    pub device_budgets: Vec<(DeviceId, Bytes)>,
}

/// Model memory retained after a request completes.
#[derive(Debug, Clone, Copy, PartialEq, Eq)]
pub struct WarmResidency {
    /// Immutable model digest.
    pub model_digest: Sha256Digest,
    /// Physical device holding the model.
    pub device: DeviceId,
    /// Retained VRAM.
    pub bytes: Bytes,
}

/// Resources requested for one blocking engine operation.
#[derive(Debug, Clone, Copy, PartialEq, Eq)]
pub struct LeaseRequest {
    /// Estimated peak host RAM.
    pub ram: Estimate<Bytes>,
    /// Optional device and estimated peak VRAM.
    pub device: Option<(DeviceId, Estimate<Bytes>)>,
    /// Optional warm model state established after successful execution.
    pub retain_warm: Option<WarmResidency>,
    /// Explicit permission to reserve an entire budget for an unknown estimate.
    pub guard_unknown: bool,
}

/// Observed peaks associated with a lease.
#[derive(Debug, Clone, Copy, Default, PartialEq, Eq)]
pub struct LeaseMeasurement {
    /// Highest observed host RAM attributable to the operation.
    pub peak_ram: Option<Bytes>,
    /// Highest observed device VRAM attributable to the operation.
    pub peak_vram: Option<Bytes>,
}

/// Stable scheduler failure.
#[derive(Debug, Clone, PartialEq, Eq)]
pub enum SchedulerError {
    /// Configuration contains a zero worker count or budget inconsistency.
    InvalidConfiguration(String),
    /// Unknown resource estimate was not explicitly admitted as guarded execution.
    UnknownEstimate(&'static str),
    /// Requested resource exceeds total configured capacity.
    ExceedsBudget {
        /// Resource class.
        resource: &'static str,
        /// Requested bytes.
        requested: Bytes,
        /// Configured bytes.
        budget: Bytes,
    },
    /// Device has no configured capacity.
    UnknownDevice(DeviceId),
    /// Capacity exists but is currently leased.
    Backpressure,
    /// Caller cancellation was observed while waiting or executing.
    Cancelled,
    /// Admission deadline elapsed.
    DeadlineExceeded,
    /// Observed use exceeded the granted reservation.
    ObservationExceeded {
        /// Resource class.
        resource: &'static str,
        /// Observed peak.
        observed: Bytes,
        /// Granted reservation.
        reserved: Bytes,
    },
}

/// Same error, ignoring the free-text message of an invalid configuration.
pub open spec fn same_error(a: SchedulerError, b: SchedulerError) -> bool {
    match (a, b) {
        (SchedulerError::InvalidConfiguration(_), SchedulerError::InvalidConfiguration(_)) => true,
        (SchedulerError::UnknownEstimate(x), SchedulerError::UnknownEstimate(y)) => x@ == y@,
        (
            SchedulerError::ExceedsBudget { resource: r1, requested: q1, budget: b1 },
            SchedulerError::ExceedsBudget { resource: r2, requested: q2, budget: b2 },
        ) => r1@ == r2@ && q1 == q2 && b1 == b2,
        (
            SchedulerError::ObservationExceeded { resource: r1, observed: o1, reserved: s1 },
            SchedulerError::ObservationExceeded { resource: r2, observed: o2, reserved: s2 },
        ) => r1@ == r2@ && o1 == o2 && s1 == s2,
        _ => a == b,
    }
}

/// A request after estimates are resolved against the configured budgets.
#[derive(Debug, Clone, Copy, PartialEq, Eq)]
pub struct NormalizedRequest {
    /// Reserved host RAM.
    pub ram: Bytes,
    /// Reserved device and VRAM.
    pub device: Option<(DeviceId, Bytes)>,
    /// Warm residency to establish after success.
    pub retain_warm: Option<WarmResidency>,
}

/// Bytes reserved for one estimate, or the error refusing it.
pub open spec fn estimate_spec(resource: &'static str, estimate: Estimate<Bytes>, budget: Bytes, guard_unknown: bool) -> Result<Bytes, SchedulerError> {
    match estimate {
        Estimate::Known(value) => if value@ > budget@ {
            Err(SchedulerError::ExceedsBudget { resource, requested: value, budget })
        } else {
            Ok(value)
        },
        Estimate::Unknown => if guard_unknown {
            Ok(budget)
        } else {
            Err(SchedulerError::UnknownEstimate(resource))
        },
    }
}

/// The device part of a request, resolved against the budgets.
pub open spec fn device_spec(config: SchedulerConfig, request: LeaseRequest) -> Result<Option<(DeviceId, Bytes)>, SchedulerError> {
    match request.device {
        None => Ok(None),
        Some((device, estimate)) => match assoc(config.device_budgets@, device) {
            None => Err(SchedulerError::UnknownDevice(device)),
            Some(budget) => match estimate_spec("VRAM", estimate, budget, request.guard_unknown) {
                Err(e) => Err(e),
                Ok(bytes) => Ok(Some((device, bytes))),
            },
        },
    }
}

/// A warm residency is acceptable when it uses the leased device and fits its peak.
pub open spec fn warm_consistent(device: Option<(DeviceId, Bytes)>, warm: WarmResidency) -> bool {
    match device {
        None => false,
        Some((d, peak)) => warm.device == d && warm.bytes@ <= peak@,
    }
}

/// How `Scheduler` resolves a request before admission: RAM first, then the device,
/// then the warm residency.
pub open spec fn normalize_spec(config: SchedulerConfig, request: LeaseRequest) -> Result<NormalizedRequest, SchedulerError> {
    match estimate_spec("RAM", request.ram, config.ram_budget, request.guard_unknown) {
        Err(e) => Err(e),
        Ok(ram) => match device_spec(config, request) {
            Err(e) => Err(e),
            Ok(device) => match request.retain_warm {
                Some(warm) if !warm_consistent(device, warm) => Err(
                    SchedulerError::InvalidConfiguration(arbitrary()),
                ),
                _ => Ok(NormalizedRequest { ram, device, retain_warm: request.retain_warm }),
            },
        },
    }
}

/// The budget of `device`, or zero when it has none.
pub open spec fn budget_of(config: SchedulerConfig, device: DeviceId) -> nat {
    match assoc(config.device_budgets@, device) {
        Some(b) => b@ as nat,
        None => 0,
    }
}

/// Looks up the budget of a device.
fn find_budget(budgets: &Vec<(DeviceId, Bytes)>, device: DeviceId) -> (r: Option<Bytes>)
    requires
        keys_unique(budgets@),
    ensures
        r == assoc(budgets@, device),
{
    let mut i: usize = 0;
    while i < budgets.len()
        invariant
            i <= budgets@.len(),
            keys_unique(budgets@),
            forall|j: int| 0 <= j < i ==> budgets@[j].0 != device,
        decreases budgets@.len() - i,
    {
        if budgets[i].0 == device {
            proof {
                lemma_assoc_found(budgets@, i as int);
            }
            return Some(budgets[i].1);
        }
        i = i + 1;
    }
    proof {
        lemma_assoc_absent(budgets@, device);
    }
    None
}

/// Resolves one estimate against its budget.
fn normalize_estimate(resource: &'static str, estimate: Estimate<Bytes>, budget: Bytes, guard_unknown: bool) -> (r: Result<Bytes, SchedulerError>)
    ensures
        match estimate_spec(resource, estimate, budget, guard_unknown) {
            Ok(b) => r == Ok::<Bytes, SchedulerError>(b),
            Err(e) => r is Err && same_error(r->Err_0, e),
        },
{
    match estimate {
        Estimate::Known(value) => {
            if value.get() > budget.get() {
                Err(SchedulerError::ExceedsBudget { resource, requested: value, budget })
            } else {
                Ok(value)
            }
        },
        Estimate::Unknown => {
            if guard_unknown {
                Ok(budget)
            } else {
                Err(SchedulerError::UnknownEstimate(resource))
            }
        },
    }
}

/// Resolves a request against configured budgets.
pub fn normalize(config: &SchedulerConfig, request: LeaseRequest) -> (r: Result<NormalizedRequest, SchedulerError>)
    requires
        keys_unique(config.device_budgets@),
    ensures
        match normalize_spec(*config, request) {
            Ok(n) => r == Ok::<NormalizedRequest, SchedulerError>(n),
            Err(e) => r is Err && same_error(r->Err_0, e),
        },
{
    let ram = match normalize_estimate("RAM", request.ram, config.ram_budget, request.guard_unknown) {
        Ok(b) => b,
        Err(e) => {
            return Err(e);
        },
    };
    let device = match request.device {
        None => None,
        Some((device, estimate)) => {
            let budget = match find_budget(&config.device_budgets, device) {
                Some(b) => b,
                None => {
                    return Err(SchedulerError::UnknownDevice(device));
                },
            };
            match normalize_estimate("VRAM", estimate, budget, request.guard_unknown) {
                Ok(bytes) => Some((device, bytes)),
                Err(e) => {
                    return Err(e);
                },
            }
        },
    };
    if let Some(warm) = request.retain_warm {
        match device {
            None => {
                return Err(
                    SchedulerError::InvalidConfiguration(
                        crate::canonical::owned("warm residency requires a device lease"),
                    ),
                );
            },
            Some((d, peak)) => {
                if warm.device != d || warm.bytes.get() > peak.get() {
                    return Err(
                        SchedulerError::InvalidConfiguration(
                            crate::canonical::owned(
                                "warm residency must use the leased device and not exceed peak VRAM",
                            ),
                        ),
                    );
                }
            },
        }
    }
    Ok(NormalizedRequest { ram, device, retain_warm: request.retain_warm })
}

/// Rank of a device family in the canonical device order.
pub open spec fn kind_rank(k: DeviceKind) -> nat {
    match k {
        DeviceKind::Cpu => 0,
        DeviceKind::Cuda => 1,
        DeviceKind::Vulkan => 2,
        DeviceKind::Metal => 3,
        DeviceKind::Wgpu => 4,
    }
}

/// Position of a device in the canonical order: by family, then unindexed before indexed,
/// then by index.
pub open spec fn device_rank(d: DeviceId) -> nat {
    kind_rank(d@.0) * 4294967297 + match d@.1 {
        None => 0nat,
        Some(i) => i as nat + 1,
    }
}

/// Distinct devices have distinct ranks.
pub proof fn lemma_rank_injective(a: DeviceId, b: DeviceId)
    requires
        device_rank(a) == device_rank(b),
    ensures
        a == b,
{
    let ia: nat = match a@.1 {
        None => 0nat,
        Some(i) => i as nat + 1,
    };
    let ib: nat = match b@.1 {
        None => 0nat,
        Some(i) => i as nat + 1,
    };
    assert(ia < 4294967297 && ib < 4294967297);
    assert(kind_rank(a@.0) == kind_rank(b@.0));
    assert(a@.0 == b@.0);
    assert(ia == ib);
    assert(a@ == b@);
}

/// Exec form of [`device_rank`].
fn rank_of(d: DeviceId) -> (r: u64)
    ensures
        r == device_rank(d),
{
    let k: u64 = match d.kind() {
        DeviceKind::Cpu => 0,
        DeviceKind::Cuda => 1,
        DeviceKind::Vulkan => 2,
        DeviceKind::Metal => 3,
        DeviceKind::Wgpu => 4,
    };
    let i: u64 = match d.index() {
        None => 0,
        Some(i) => i as u64 + 1,
    };
    k * 4294967297 + i
}

/// Counters in strictly increasing canonical device order.
pub open spec fn sorted_by_rank(s: Seq<(DeviceId, u64)>) -> bool {
    forall|i: int, j: int| 0 <= i < j < s.len() ==> device_rank(s[i].0) < device_rank(s[j].0)
}

/// Usage recorded for a device; absent devices use nothing.
pub open spec fn used(m: Map<DeviceId, nat>, d: DeviceId) -> nat {
    if m.contains_key(d) {
        m[d]
    } else {
        0
    }
}

/// Saturating subtraction.
pub open spec fn sat_sub(x: nat, y: nat) -> nat {
    if x >= y {
        (x - y) as nat
    } else {
        0
    }
}

/// Scheduler accounting: active workers, reserved RAM, per-device reservations (active plus
/// warm), and warm model reservations keyed by model digest and device.
pub struct Accounting {
    /// Active worker slots.
    pub workers: nat,
    /// Reserved host RAM.
    pub ram: nat,
    /// Reserved VRAM per device.
    pub device: Map<DeviceId, nat>,
    /// Warm model reservations.
    pub warm: Map<(Sha256Digest, DeviceId), nat>,
}

/// Accounting with nothing reserved.
pub open spec fn empty_accounting() -> Accounting {
    Accounting { workers: 0, ram: 0, device: Map::empty(), warm: Map::empty() }
}

/// True when a normalized request fits next to the current reservations.
pub open spec fn fits_spec(config: SchedulerConfig, a: Accounting, n: NormalizedRequest) -> bool {
    &&& a.workers < config.cpu_workers
    &&& a.ram + n.ram@ <= config.ram_budget@
    &&& match n.device {
        None => true,
        Some((d, b)) => used(a.device, d) + b@ <= budget_of(config, d),
    }
}

/// Accounting after granting a lease.
pub open spec fn grant_spec(a: Accounting, n: NormalizedRequest) -> Accounting {
    Accounting {
        workers: a.workers + 1,
        ram: a.ram + n.ram@ as nat,
        device: match n.device {
            None => a.device,
            Some((d, b)) => a.device.insert(d, used(a.device, d) + b@ as nat),
        },
        warm: a.warm,
    }
}

/// Device reservations after returning `b` bytes on `d`; a device left with nothing is dropped.
pub open spec fn subtract_device(m: Map<DeviceId, nat>, d: DeviceId, b: nat) -> Map<DeviceId, nat> {
    if sat_sub(used(m, d), b) == 0 {
        m.remove(d)
    } else {
        m.insert(d, sat_sub(used(m, d), b))
    }
}

/// A lease whose warm residency this configuration can hold: same device, within the peak,
/// and within that device's budget.
pub open spec fn warm_admissible(config: SchedulerConfig, n: NormalizedRequest) -> bool {
    match (n.device, n.retain_warm) {
        (Some((d, b)), Some(w)) => {
            &&& w.device == d
            &&& w.bytes@ <= b@
            &&& assoc(config.device_budgets@, d) is Some
            &&& b@ <= budget_of(config, d)
        },
        _ => false,
    }
}

/// Accounting after a lease is returned: its worker, RAM, and VRAM are released, and a
/// successful lease leaves its warm residency behind unless that model is already warm there.
pub open spec fn release_spec(config: SchedulerConfig, a: Accounting, n: NormalizedRequest, successful: bool) -> Accounting {
    let device = match n.device {
        None => a.device,
        Some((d, b)) => subtract_device(a.device, d, b@ as nat),
    };
    let base = Accounting {
        workers: sat_sub(a.workers, 1),
        ram: sat_sub(a.ram, n.ram@ as nat),
        device,
        warm: a.warm,
    };
    match n.retain_warm {
        Some(w) => if successful && warm_admissible(config, n) && !a.warm.contains_key(
            (w.model_digest, w.device),
        ) {
            Accounting {
                workers: base.workers,
                ram: base.ram,
                device: base.device.insert(w.device, used(base.device, w.device) + w.bytes@ as nat),
                warm: a.warm.insert((w.model_digest, w.device), w.bytes@ as nat),
            }
        } else {
            base
        },
        None => base,
    }
}

/// Every reservation lies within its configured capacity.
pub open spec fn within_budgets(config: SchedulerConfig, a: Accounting) -> bool {
    &&& a.workers <= config.cpu_workers
    &&& a.ram <= config.ram_budget@
    &&& forall|d: DeviceId| #[trigger]
        a.device.contains_key(d) ==> assoc(config.device_budgets@, d) is Some && a.device[d]
            <= budget_of(config, d)
}

/// Granted resources; hand the lease back to [`Scheduler::release`] when execution ends.
#[derive(Debug)]
pub struct ResourceLease {
    request: NormalizedRequest,
    cancellation: CancellationToken,
    measurement: LeaseMeasurement,
    successful: bool,
}

impl ResourceLease {
    /// The resources this lease holds.
    pub closed spec fn request(&self) -> NormalizedRequest {
        self.request
    }

    /// Observations recorded so far.
    pub closed spec fn recorded(&self) -> LeaseMeasurement {
        self.measurement
    }

    /// Whether execution was marked successful.
    pub closed spec fn succeeded(&self) -> bool {
        self.successful
    }

    /// The resources this lease holds.
    pub fn resources(&self) -> (n: NormalizedRequest)
        ensures
            n == self.request(),
    {
        self.request
    }

    /// Marks execution successful, permitting requested warm residency on release.
    pub fn complete(&mut self)
        ensures
            final(self).succeeded(),
            final(self).request() == old(self).request(),
            final(self).recorded() == old(self).recorded(),
    {
        self.successful = true;
    }

    /// Returns observations recorded so far.
    pub fn measurement(&self) -> (m: LeaseMeasurement)
        ensures
            m == self.recorded(),
    {
        self.measurement
    }
}

/// Scheduler accounting for worker slots, host RAM, and device VRAM.
#[derive(Debug)]
pub struct Scheduler {
    config: SchedulerConfig,
    workers: u32,
    ram: u64,
    device: Vec<(DeviceId, u64)>,
    warm: Vec<((Sha256Digest, DeviceId), u64)>,
}

impl View for Scheduler {
    type V = Accounting;

    closed spec fn view(&self) -> Accounting {
        Accounting {
            workers: self.workers as nat,
            ram: self.ram as nat,
            device: map_of(self.device@),
            warm: map_of(self.warm@),
        }
    }
}

/// Looks up a device counter; returns its position, or where it would be inserted.
fn device_position(v: &Vec<(DeviceId, u64)>, d: DeviceId) -> (r: (usize, bool))
    requires
        sorted_by_rank(v@),
    ensures
        r.0 <= v@.len(),
        r.1 ==> r.0 < v@.len() && v@[r.0 as int].0 == d,
        !r.1 ==> !has_key(v@, d),
        !r.1 ==> forall|j: int| 0 <= j < r.0 ==> device_rank(#[trigger] v@[j].0) < device_rank(d),
        !r.1 ==> forall|j: int| r.0 <= j < v@.len() ==> device_rank(d) < device_rank(#[trigger] v@[j].0),
{
    let r = rank_of(d);
    let mut p: usize = 0;
    while p < v.len() && rank_of(v[p].0) < r
        invariant
            p <= v@.len(),
            sorted_by_rank(v@),
            r == device_rank(d),
            forall|j: int| 0 <= j < p ==> device_rank(#[trigger] v@[j].0) < r,
        decreases v@.len() - p,
    {
        p = p + 1;
    }
    if p < v.len() && rank_of(v[p].0) == r {
        proof {
            lemma_rank_injective(v@[p as int].0, d);
        }
        return (p, true);
    }
    proof {
        assert forall|j: int| p <= j < v@.len() implies device_rank(d) < device_rank(
            #[trigger] v@[j].0,
        ) by {
            if j > p {
                assert(device_rank(v@[p as int].0) < device_rank(v@[j].0));
            }
        }
        assert(!has_key(v@, d)) by {
            if has_key(v@, d) {
                let j = choose|j: int| 0 <= j < v@.len() && v@[j].0 == d;
                assert(device_rank(v@[j].0) == r);
            }
        }
    }
    (p, false)
}

/// Sorted counters have unique keys.
proof fn lemma_sorted_unique(s: Seq<(DeviceId, u64)>)
    requires
        sorted_by_rank(s),
    ensures
        keys_unique(s),
{
}

/// Current usage of a device.
fn get_used(v: &Vec<(DeviceId, u64)>, d: DeviceId) -> (u: u64)
    requires
        sorted_by_rank(v@),
    ensures
        u == used(map_of(v@), d),
{
    let (p, found) = device_position(v, d);
    if found {
        proof {
            lemma_sorted_unique(v@);
            lemma_map_of_at(v@, p as int);
        }
        v[p].1
    } else {
        0
    }
}

/// Sets the usage of a device, keeping canonical order.
fn set_used(v: &mut Vec<(DeviceId, u64)>, d: DeviceId, value: u64)
    requires
        sorted_by_rank(old(v)@),
    ensures
        sorted_by_rank(final(v)@),
        map_of(final(v)@) == map_of(old(v)@).insert(d, value as nat),
{
    let (p, found) = device_position(v, d);
    proof {
        lemma_sorted_unique(v@);
    }
    if found {
        proof {
            lemma_map_of_update(v@, p as int, value);
        }
        v.set(p, (d, value));
    } else {
        proof {
            lemma_map_of_insert(v@, p as int, d, value);
        }
        v.insert(p, (d, value));
        proof {
            assert forall|i: int, j: int| 0 <= i < j < v@.len() implies device_rank(v@[i].0)
                < device_rank(v@[j].0) by {
                let o = old(v)@;
                if j < p {
                    assert(v@[i] == o[i] && v@[j] == o[j]);
                } else if j == p {
                    assert(v@[i] == o[i]);
                } else if i == p {
                    assert(v@[j] == o[j - 1]);
                } else if i < p {
                    assert(v@[i] == o[i] && v@[j] == o[j - 1]);
                } else {
                    assert(v@[i] == o[i - 1] && v@[j] == o[j - 1]);
                }
            }
        }
    }
}

/// Returns `bytes` on a device; a device left with nothing is dropped.
fn subtract_used(v: &mut Vec<(DeviceId, u64)>, d: DeviceId, bytes: u64)
    requires
        sorted_by_rank(old(v)@),
    ensures
        sorted_by_rank(final(v)@),
        map_of(final(v)@) == subtract_device(map_of(old(v)@), d, bytes as nat),
{
    let current = get_used(v, d);
    let remaining = if current >= bytes {
        current - bytes
    } else {
        0
    };
    if remaining == 0 {
        let (p, found) = device_position(v, d);
        proof {
            lemma_sorted_unique(v@);
        }
        if found {
            proof {
                lemma_map_of_remove(v@, p as int);
            }
            v.remove(p);
            proof {
                let o = old(v)@;
                assert forall|i: int, j: int| 0 <= i < j < v@.len() implies device_rank(v@[i].0)
                    < device_rank(v@[j].0) by {
                    if j < p {
                        assert(v@[i] == o[i] && v@[j] == o[j]);
                    } else if i < p {
                        assert(v@[i] == o[i] && v@[j] == o[j + 1]);
                    } else {
                        assert(v@[i] == o[i + 1] && v@[j] == o[j + 1]);
                    }
                }
            }
        } else {
            proof {
                assert(map_of(v@).remove(d) =~= map_of(v@));
            }
        }
    } else {
        set_used(v, d, remaining);
    }
}

/// Position of a warm model reservation.
fn warm_position(v: &Vec<((Sha256Digest, DeviceId), u64)>, key: (Sha256Digest, DeviceId)) -> (r: Option<usize>)
    requires
        keys_unique(v@),
    ensures
        match r {
            Some(p) => p < v@.len() && v@[p as int].0 == key,
            None => !has_key(v@, key),
        },
{
    let mut i: usize = 0;
    while i < v.len()
        invariant
            i <= v@.len(),
            forall|j: int| 0 <= j < i ==> v@[j].0 != key,
        decreases v@.len() - i,
    {
        if v[i].0.0.same_as(&key.0) && v[i].0.1 == key.1 {
            return Some(i);
        }
        i = i + 1;
    }
    None
}

/// Current scheduler accounting.
#[derive(Debug, Clone, PartialEq, Eq)]
pub struct SchedulerSnapshot {
    /// Active worker slots.
    pub active_workers: u32,
    /// Active host RAM reservations.
    pub reserved_ram: Bytes,
    /// Active plus warm device reservations, in canonical device order.
    pub reserved_devices: Vec<(DeviceId, Bytes)>,
    /// Count of warm model/device pairs.
    pub warm_models: u64,
}

impl Scheduler {
    #[verifier::type_invariant]
    spec fn consistent(self) -> bool {
        &&& self.config.cpu_workers > 0
        &&& keys_unique(self.config.device_budgets@)
        &&& sorted_by_rank(self.device@)
        &&& keys_unique(self.warm@)
        &&& within_budgets(self.config, self@)
    }

    /// The configuration this scheduler enforces.
    pub closed spec fn config(&self) -> SchedulerConfig {
        self.config
    }

    /// Creates a scheduler after validating its hard capacities.
    pub fn new(config: SchedulerConfig) -> (r: Result<Self, SchedulerError>)
        ensures
            (config.cpu_workers > 0 && keys_unique(config.device_budgets@)) <==> r is Ok,
            r is Err ==> r->Err_0 is InvalidConfiguration,
            r matches Ok(s) ==> s.config() == config && s@ == empty_accounting(),
    {
        if config.cpu_workers == 0 {
            return Err(
                SchedulerError::InvalidConfiguration(
                    crate::canonical::owned("cpu_workers must be nonzero"),
                ),
            );
        }
        let n = config.device_budgets.len();
        let mut i: usize = 0;
        while i < n
            invariant
                i <= n,
                n == config.device_budgets@.len(),
                forall|a: int, b: int| 0 <= a < b < n && a < i ==> config.device_budgets@[a].0
                    != config.device_budgets@[b].0,
            decreases n - i,
        {
            let mut j: usize = i + 1;
            while j < n
                invariant
                    i < n,
                    i + 1 <= j <= n,
                    n == config.device_budgets@.len(),
                    forall|a: int, b: int| 0 <= a < b < n && a < i ==> config.device_budgets@[a].0
                        != config.device_budgets@[b].0,
                    forall|b: int| i < b < j ==> config.device_budgets@[i as int].0
                        != config.device_budgets@[b].0,
                decreases n - j,
            {
                if config.device_budgets[i].0 == config.device_budgets[j].0 {
                    return Err(
                        SchedulerError::InvalidConfiguration(
                            crate::canonical::owned("each device may have only one budget"),
                        ),
                    );
                }
                j = j + 1;
            }
            i = i + 1;
        }
        let s = Scheduler { config, workers: 0, ram: 0, device: Vec::new(), warm: Vec::new() };
        proof {
            assert(map_of(s.device@) =~= Map::<DeviceId, nat>::empty());
            assert(map_of(s.warm@) =~= Map::<(Sha256Digest, DeviceId), nat>::empty());
        }
        Ok(s)
    }

    /// One admission attempt without waiting, once cancellation has been observed.
    pub fn try_acquire_observed(&mut self, request: LeaseRequest, cancellation: CancellationToken, cancelled: bool) -> (r: Result<ResourceLease, SchedulerError>)
        ensures
            final(self).config() == old(self).config(),
            within_budgets(final(self).config(), final(self)@),
            cancelled ==> r == Err::<ResourceLease, SchedulerError>(SchedulerError::Cancelled)
                && final(self)@ == old(self)@,
            !cancelled ==> match normalize_spec(old(self).config(), request) {
                Err(e) => r is Err && same_error(r->Err_0, e) && final(self)@ == old(self)@,
                Ok(n) => if fits_spec(old(self).config(), old(self)@, n) {
                    &&& r is Ok
                    &&& r->Ok_0.request() == n
                    &&& !r->Ok_0.succeeded()
                    &&& r->Ok_0.recorded() == (LeaseMeasurement { peak_ram: None, peak_vram: None })
                    &&& final(self)@ == grant_spec(old(self)@, n)
                } else {
                    r == Err::<ResourceLease, SchedulerError>(SchedulerError::Backpressure)
                        && final(self)@ == old(self)@
                },
            },
    {
        proof {
            use_type_invariant(&*self);
        }
        if cancelled {
            return Err(SchedulerError::Cancelled);
        }
        let n = match normalize(&self.config, request) {
            Ok(n) => n,
            Err(e) => {
                return Err(e);
            },
        };
        let r = self.attempt(n, cancellation);
        proof {
            use_type_invariant(&*self);
        }
        r
    }

    /// Attempts admission once without waiting.
    pub fn try_acquire(&mut self, request: LeaseRequest, cancellation: CancellationToken) -> (r: Result<ResourceLease, SchedulerError>)
        ensures
            final(self).config() == old(self).config(),
            within_budgets(final(self).config(), final(self)@),
            r == Err::<ResourceLease, SchedulerError>(SchedulerError::Cancelled) ==> final(self)@ == old(self)@,
            r != Err::<ResourceLease, SchedulerError>(SchedulerError::Cancelled) ==> match normalize_spec(old(self).config(), request) {
                Err(e) => r is Err && same_error(r->Err_0, e) && final(self)@ == old(self)@,
                Ok(n) => if fits_spec(old(self).config(), old(self)@, n) {
                    &&& r is Ok
                    &&& r->Ok_0.request() == n
                    &&& !r->Ok_0.succeeded()
                    &&& r->Ok_0.recorded() == (LeaseMeasurement { peak_ram: None, peak_vram: None })
                    &&& final(self)@ == grant_spec(old(self)@, n)
                } else {
                    r == Err::<ResourceLease, SchedulerError>(SchedulerError::Backpressure)
                        && final(self)@ == old(self)@
                },
            },
    {
        let cancelled = cancellation.is_cancelled();
        self.try_acquire_observed(request, cancellation, cancelled)
    }

    /// One step of waiting admission, once cancellation and the deadline have been observed.
    ///
    /// The request is resolved first; then cancellation, then the deadline, then capacity
    /// decide. `Backpressure` tells the host to wait for a release and try again.
    pub fn acquire_observed(&mut self, request: LeaseRequest, cancellation: CancellationToken, cancelled: bool, deadline_passed: bool) -> (r: Result<ResourceLease, SchedulerError>)
        ensures
            final(self).config() == old(self).config(),
            within_budgets(final(self).config(), final(self)@),
            match normalize_spec(old(self).config(), request) {
                Err(e) => r is Err && same_error(r->Err_0, e) && final(self)@ == old(self)@,
                Ok(n) => if cancelled {
                    r == Err::<ResourceLease, SchedulerError>(SchedulerError::Cancelled)
                        && final(self)@ == old(self)@
                } else if deadline_passed {
                    r == Err::<ResourceLease, SchedulerError>(SchedulerError::DeadlineExceeded)
                        && final(self)@ == old(self)@
                } else if fits_spec(old(self).config(), old(self)@, n) {
                    &&& r is Ok
                    &&& r->Ok_0.request() == n
                    &&& !r->Ok_0.succeeded()
                    &&& r->Ok_0.recorded() == (LeaseMeasurement { peak_ram: None, peak_vram: None })
                    &&& final(self)@ == grant_spec(old(self)@, n)
                } else {
                    r == Err::<ResourceLease, SchedulerError>(SchedulerError::Backpressure)
                        && final(self)@ == old(self)@
                },
            },
    {
        proof {
            use_type_invariant(&*self);
        }
        let n = match normalize(&self.config, request) {
            Ok(n) => n,
            Err(e) => {
                return Err(e);
            },
        };
        if cancelled {
            return Err(SchedulerError::Cancelled);
        }
        if deadline_passed {
            return Err(SchedulerError::DeadlineExceeded);
        }
        let r = self.attempt(n, cancellation);
        proof {
            use_type_invariant(&*self);
        }
        r
    }

    /// One step of waiting admission once the deadline has been observed; the host retries
    /// after `Backpressure` until resources, cancellation, or the deadline win.
    pub fn acquire(&mut self, request: LeaseRequest, cancellation: CancellationToken, deadline_passed: bool) -> (r: Result<ResourceLease, SchedulerError>)
        ensures
            final(self).config() == old(self).config(),
            within_budgets(final(self).config(), final(self)@),
            match normalize_spec(old(self).config(), request) {
                Err(e) => r is Err && same_error(r->Err_0, e) && final(self)@ == old(self)@,
                Ok(n) => if r == Err::<ResourceLease, SchedulerError>(SchedulerError::Cancelled) {
                    final(self)@ == old(self)@
                } else if deadline_passed {
                    r == Err::<ResourceLease, SchedulerError>(SchedulerError::DeadlineExceeded)
                        && final(self)@ == old(self)@
                } else if fits_spec(old(self).config(), old(self)@, n) {
                    &&& r is Ok
                    &&& r->Ok_0.request() == n
                    &&& !r->Ok_0.succeeded()
                    &&& r->Ok_0.recorded() == (LeaseMeasurement { peak_ram: None, peak_vram: None })
                    &&& final(self)@ == grant_spec(old(self)@, n)
                } else {
                    r == Err::<ResourceLease, SchedulerError>(SchedulerError::Backpressure)
                        && final(self)@ == old(self)@
                },
            },
    {
        let cancelled = cancellation.is_cancelled();
        self.acquire_observed(request, cancellation, cancelled, deadline_passed)
    }

    /// Exec form of [`warm_admissible`].
    fn warm_admissible_exec(&self, n: &NormalizedRequest) -> (r: bool)
        ensures
            r == warm_admissible(self.config(), *n),
    {
        proof {
            use_type_invariant(self);
        }
        match (n.device, n.retain_warm) {
            (Some((d, b)), Some(w)) => {
                if w.device != d || w.bytes.get() > b.get() {
                    return false;
                }
                match find_budget(&self.config.device_budgets, d) {
                    Some(budget) => b.get() <= budget.get(),
                    None => false,
                }
            },
            _ => false,
        }
    }

    /// Returns a lease: its worker slot, RAM, and VRAM are released, and a successful lease
    /// leaves its warm model residency reserved unless that model is already warm there.
    pub fn release(&mut self, lease: ResourceLease)
        ensures
            final(self).config() == old(self).config(),
            within_budgets(final(self).config(), final(self)@),
            final(self)@ == release_spec(old(self).config(), old(self)@, lease.request(), lease.succeeded()),
    {
        proof {
            use_type_invariant(&*self);
        }
        let ghost before = self@;
        let ghost config = self.config;
        let n = lease.request;
        let admissible = self.warm_admissible_exec(&n);
        let workers = if self.workers > 0 {
            self.workers - 1
        } else {
            0
        };
        let ram = if self.ram >= n.ram.get() {
            self.ram - n.ram.get()
        } else {
            0
        };
        let mut device: Vec<(DeviceId, u64)> = Vec::new();
        std::mem::swap(&mut device, &mut self.device);
        let mut warm: Vec<((Sha256Digest, DeviceId), u64)> = Vec::new();
        std::mem::swap(&mut warm, &mut self.warm);
        match n.device {
            None => {},
            Some((d, b)) => {
                subtract_used(&mut device, d, b.get());
            },
        }
        let ghost base_device = map_of(device@);
        proof {
            assert forall|k: DeviceId| #[trigger] base_device.contains_key(k) implies assoc(
                config.device_budgets@,
                k,
            ) is Some && base_device[k] <= budget_of(config, k) by {
                assert(before.device.contains_key(k));
            }
        }
        if lease.successful && admissible {
            match n.retain_warm {
                Some(w) => {
                    let key = (w.model_digest, w.device);
                    match warm_position(&warm, key) {
                        Some(_) => {},
                        None => {
                            proof {
                                lemma_map_of_insert(warm@, warm@.len() as int, key, w.bytes@);
                                assert(warm@.push((key, w.bytes@)) == warm@.insert(
                                    warm@.len() as int,
                                    (key, w.bytes@),
                                ));
                            }
                            warm.push((key, w.bytes.get()));
                            let current = get_used(&device, w.device);
                            proof {
                                let (d, b) = n.device.unwrap();
                                assert(d == w.device);
                                let old_used = used(before.device, d);
                                if before.device.contains_key(d) {
                                    assert(old_used <= budget_of(config, d));
                                }
                                assert(current + w.bytes@ <= budget_of(config, d));
                            }
                            set_used(&mut device, w.device, current + w.bytes.get());
                        },
                    }
                },
                None => {},
            }
        }
        self.workers = workers;
        self.ram = ram;
        proof {
            let m = map_of(device@);
            assert forall|k: DeviceId| #[trigger] m.contains_key(k) implies assoc(
                config.device_budgets@,
                k,
            ) is Some && m[k] <= budget_of(config, k) by {
                if base_device.contains_key(k) {
                }
            }
        }
        self.device = device;
        self.warm = warm;
    }

    /// Evicts one warm model reservation, returning whether it existed.
    pub fn evict_warm(&mut self, model_digest: Sha256Digest, device: &DeviceId) -> (r: bool)
        ensures
            final(self).config() == old(self).config(),
            within_budgets(final(self).config(), final(self)@),
            r == old(self)@.warm.contains_key((model_digest, *device)),
            r ==> final(self)@ == (Accounting {
                workers: old(self)@.workers,
                ram: old(self)@.ram,
                device: subtract_device(
                    old(self)@.device,
                    *device,
                    old(self)@.warm[(model_digest, *device)],
                ),
                warm: old(self)@.warm.remove((model_digest, *device)),
            }),
            !r ==> final(self)@ == old(self)@,
    {
        proof {
            use_type_invariant(&*self);
        }
        let ghost before = self@;
        let ghost config = self.config;
        let key = (model_digest, *device);
        let p = match warm_position(&self.warm, key) {
            Some(p) => p,
            None => {
                proof {
                    lemma_has_key_iff_assoc(self.warm@, key);
                }
                return false;
            },
        };
        proof {
            lemma_map_of_at(self.warm@, p as int);
            lemma_map_of_remove(self.warm@, p as int);
        }
        let bytes = self.warm[p].1;
        let mut devices: Vec<(DeviceId, u64)> = Vec::new();
        std::mem::swap(&mut devices, &mut self.device);
        let mut warm: Vec<((Sha256Digest, DeviceId), u64)> = Vec::new();
        std::mem::swap(&mut warm, &mut self.warm);
        warm.remove(p);
        subtract_used(&mut devices, *device, bytes);
        proof {
            let m = map_of(devices@);
            assert forall|k: DeviceId| #[trigger] m.contains_key(k) implies assoc(
                config.device_budgets@,
                k,
            ) is Some && m[k] <= budget_of(config, k) by {
                assert(before.device.contains_key(k));
            }
        }
        self.device = devices;
        self.warm = warm;
        true
    }

    /// Returns the current accounting for diagnostics.
    pub fn snapshot(&self) -> (s: SchedulerSnapshot)
        ensures
            s.active_workers == self@.workers,
            s.reserved_ram@ == self@.ram,
            s.warm_models == self@.warm.dom().len(),
            self@.warm.dom().finite(),
            forall|i: int| 0 <= i < s.reserved_devices@.len() ==> self@.device.contains_key(
                (#[trigger] s.reserved_devices@[i]).0,
            ) && self@.device[s.reserved_devices@[i].0] == s.reserved_devices@[i].1@,
            forall|d: DeviceId| #[trigger]
                self@.device.contains_key(d) ==> exists|i: int|
                    0 <= i < s.reserved_devices@.len() && s.reserved_devices@[i].0 == d,
            forall|i: int, j: int|
                0 <= i < j < s.reserved_devices@.len() ==> device_rank(s.reserved_devices@[i].0)
                    < device_rank(s.reserved_devices@[j].0),
            within_budgets(self.config(), self@),
    {
        proof {
            use_type_invariant(self);
            lemma_sorted_unique(self.device@);
            lemma_map_of_len(self.warm@);
        }
        let mut devices: Vec<(DeviceId, Bytes)> = Vec::new();
        let mut i: usize = 0;
        while i < self.device.len()
            invariant
                i <= self.device@.len(),
                sorted_by_rank(self.device@),
                keys_unique(self.device@),
                devices@.len() == i,
                forall|j: int| 0 <= j < i ==> (#[trigger] devices@[j]).0 == self.device@[j].0
                    && devices@[j].1@ == self.device@[j].1,
            decreases self.device@.len() - i,
        {
            devices.push((self.device[i].0, Bytes::new(self.device[i].1)));
            i = i + 1;
        }
        proof {
            assert forall|j: int| 0 <= j < devices@.len() implies self@.device.contains_key(
                (#[trigger] devices@[j]).0,
            ) && self@.device[devices@[j].0] == devices@[j].1@ by {
                lemma_map_of_at(self.device@, j);
            }
            assert forall|d: DeviceId| #[trigger] self@.device.contains_key(d) implies exists|
                j: int,
            | 0 <= j < devices@.len() && devices@[j].0 == d by {
                let j = choose|j: int| 0 <= j < self.device@.len() && self.device@[j].0 == d;
                assert(devices@[j].0 == d);
            }
        }
        let ghost dv = devices@;
        let snapshot = SchedulerSnapshot {
            active_workers: self.workers,
            reserved_ram: Bytes::new(self.ram),
            reserved_devices: devices,
            warm_models: self.warm.len() as u64,
        };
        proof {
            assert(snapshot.reserved_devices@ == dv);
            assert forall|d: DeviceId| #[trigger] self@.device.contains_key(d) implies exists|
                j: int,
            | 0 <= j < snapshot.reserved_devices@.len() && snapshot.reserved_devices@[j].0 == d by {
                let j = choose|j: int| 0 <= j < dv.len() && dv[j].0 == d;
                assert(snapshot.reserved_devices@[j].0 == d);
            }
        }
        snapshot
    }

    /// Checks whether a normalized request fits next to the current reservations.
    fn fits(&self, n: &NormalizedRequest) -> (r: bool)
        ensures
            r == fits_spec(self.config(), self@, *n),
    {
        proof {
            use_type_invariant(self);
        }
        if self.workers >= self.config.cpu_workers {
            return false;
        }
        if n.ram.get() > self.config.ram_budget.get() - self.ram {
            return false;
        }
        match n.device {
            None => true,
            Some((d, b)) => {
                let current = get_used(&self.device, d);
                let budget = match find_budget(&self.config.device_budgets, d) {
                    Some(budget) => budget.get(),
                    None => 0,
                };
                current <= budget && b.get() <= budget - current
            },
        }
    }

    /// The outcome of one admission attempt for a request that resolved to `n`.
    fn attempt(&mut self, n: NormalizedRequest, cancellation: CancellationToken) -> (r: Result<ResourceLease, SchedulerError>)
        requires
            match n.device {
                None => true,
                Some((d, _)) => assoc(old(self).config().device_budgets@, d) is Some,
            },
        ensures
            final(self).config() == old(self).config(),
            fits_spec(old(self).config(), old(self)@, n) ==> r is Ok && r->Ok_0.request() == n
                && !r->Ok_0.succeeded() && r->Ok_0.recorded() == (LeaseMeasurement {
                peak_ram: None,
                peak_vram: None,
            }) && final(self)@ == grant_spec(old(self)@, n),
            !fits_spec(old(self).config(), old(self)@, n) ==> r == Err::<ResourceLease, SchedulerError>(SchedulerError::Backpressure)
                && final(self)@ == old(self)@,
    {
        if !self.fits(&n) {
            return Err(SchedulerError::Backpressure);
        }
        self.grant(n);
        Ok(
            ResourceLease {
                request: n,
                cancellation,
                measurement: LeaseMeasurement { peak_ram: None, peak_vram: None },
                successful: false,
            },
        )
    }

    /// Grants a lease that fits.
    fn grant(&mut self, n: NormalizedRequest)
        requires
            fits_spec(old(self).config(), old(self)@, n),
            match n.device {
                None => true,
                Some((d, _)) => assoc(old(self).config().device_budgets@, d) is Some,
            },
        ensures
            final(self)@ == grant_spec(old(self)@, n),
            final(self).config() == old(self).config(),
    {
        proof {
            use_type_invariant(&*self);
        }
        let workers = self.workers + 1;
        let ram = self.ram + n.ram.get();
        let ghost before = self@;
        let ghost config = self.config;
        let mut device: Vec<(DeviceId, u64)> = Vec::new();
        std::mem::swap(&mut device, &mut self.device);
        match n.device {
            None => {},
            Some((d, b)) => {
                let current = get_used(&device, d);
                set_used(&mut device, d, current + b.get());
            },
        }
        self.workers = workers;
        self.ram = ram;
        proof {
            let m = map_of(device@);
            assert forall|k: DeviceId| #[trigger] m.contains_key(k) implies assoc(
                config.device_budgets@,
                k,
            ) is Some && m[k] <= budget_of(config, k) by {
                match n.device {
                    None => {
                        assert(before.device.contains_key(k));
                    },
                    Some((d, b)) => {
                        if k != d {
                            assert(before.device.contains_key(k));
                        }
                    },
                }
            }
        }
        self.device = device;
    }
}

/// The larger of a recorded peak and a new observation.
pub open spec fn peak_spec(current: Option<Bytes>, observed: Bytes) -> Bytes {
    match current {
        Some(c) => if c@ >= observed@ {
            c
        } else {
            observed
        },
        None => observed,
    }
}

/// VRAM reserved by a normalized request; zero without a device.
pub open spec fn reserved_vram(n: NormalizedRequest) -> Bytes {
    match n.device {
        Some((_, b)) => b,
        None => Bytes::spec_new(0),
    }
}

/// Recorded peaks and verdict after observing `peak_ram` and `peak_vram` on a running lease:
/// RAM is recorded and checked first, and a RAM overrun stops before VRAM is recorded.
pub open spec fn observe_spec(m: LeaseMeasurement, n: NormalizedRequest, peak_ram: Option<Bytes>, peak_vram: Option<Bytes>) -> (LeaseMeasurement, Result<(), SchedulerError>) {
    let m1 = match peak_ram {
        Some(o) => LeaseMeasurement { peak_ram: Some(peak_spec(m.peak_ram, o)), peak_vram: m.peak_vram },
        None => m,
    };
    match peak_ram {
        Some(o) if o@ > n.ram@ => (
            m1,
            Err(SchedulerError::ObservationExceeded { resource: "RAM", observed: o, reserved: n.ram }),
        ),
        _ => {
            let m2 = match peak_vram {
                Some(o) => LeaseMeasurement { peak_ram: m1.peak_ram, peak_vram: Some(peak_spec(m1.peak_vram, o)) },
                None => m1,
            };
            match peak_vram {
                Some(o) if o@ > reserved_vram(n)@ => (
                    m2,
                    Err(
                        SchedulerError::ObservationExceeded {
                            resource: "VRAM",
                            observed: o,
                            reserved: reserved_vram(n),
                        },
                    ),
                ),
                _ => (m2, Ok(())),
            }
        },
    }
}

/// The larger of a recorded peak and a new observation.
fn maximum(current: Option<Bytes>, observed: Bytes) -> (r: Bytes)
    ensures
        r == peak_spec(current, observed),
{
    match current {
        Some(c) => if c.get() >= observed.get() {
            c
        } else {
            observed
        },
        None => observed,
    }
}

impl ResourceLease {
    /// Records actual peaks once cancellation has been observed; an overrun of the
    /// reservation cancels execution.
    pub fn observe_checked(&mut self, peak_ram: Option<Bytes>, peak_vram: Option<Bytes>, cancelled: bool) -> (r: Result<(), SchedulerError>)
        ensures
            final(self).request() == old(self).request(),
            final(self).succeeded() == old(self).succeeded(),
            cancelled ==> r == Err::<(), SchedulerError>(SchedulerError::Cancelled)
                && final(self).recorded() == old(self).recorded(),
            !cancelled ==> {
                let (m, v) = observe_spec(old(self).recorded(), old(self).request(), peak_ram, peak_vram);
                &&& final(self).recorded() == m
                &&& match v {
                    Ok(()) => r is Ok,
                    Err(e) => r is Err && same_error(r->Err_0, e),
                }
            },
    {
        if cancelled {
            return Err(SchedulerError::Cancelled);
        }
        if let Some(observed) = peak_ram {
            self.measurement.peak_ram = Some(maximum(self.measurement.peak_ram, observed));
            if observed.get() > self.request.ram.get() {
                self.cancellation.cancel();
                return Err(
                    SchedulerError::ObservationExceeded {
                        resource: "RAM",
                        observed,
                        reserved: self.request.ram,
                    },
                );
            }
        }
        if let Some(observed) = peak_vram {
            self.measurement.peak_vram = Some(maximum(self.measurement.peak_vram, observed));
            let reserved = match self.request.device {
                Some((_, bytes)) => bytes,
                None => Bytes::new(0),
            };
            if observed.get() > reserved.get() {
                self.cancellation.cancel();
                return Err(
                    SchedulerError::ObservationExceeded { resource: "VRAM", observed, reserved },
                );
            }
        }
        Ok(())
    }

    /// Records actual peaks and cancels execution if a reservation is exceeded.
    pub fn observe(&mut self, peak_ram: Option<Bytes>, peak_vram: Option<Bytes>) -> (r: Result<(), SchedulerError>)
        ensures
            final(self).request() == old(self).request(),
            final(self).succeeded() == old(self).succeeded(),
            r == Err::<(), SchedulerError>(SchedulerError::Cancelled) && final(self).recorded()
                == old(self).recorded() || {
                let (m, v) = observe_spec(old(self).recorded(), old(self).request(), peak_ram, peak_vram);
                &&& final(self).recorded() == m
                &&& match v {
                    Ok(()) => r is Ok,
                    Err(e) => r is Err && same_error(r->Err_0, e),
                }
            },
    {
        let cancelled = self.cancellation.is_cancelled();
        self.observe_checked(peak_ram, peak_vram, cancelled)
    }
}

/// Returning an unsuccessful lease restores the accounting it was granted from: worker
/// count, RAM, warm models, and every device's usage.
pub proof fn lemma_release_undoes_grant(config: SchedulerConfig, a: Accounting, n: NormalizedRequest)
    ensures
        ({
            let b = release_spec(config, grant_spec(a, n), n, false);
            &&& b.workers == a.workers
            &&& b.ram == a.ram
            &&& b.warm == a.warm
            &&& forall|d: DeviceId| #[trigger] used(b.device, d) == used(a.device, d)
        }),
{
    let g = grant_spec(a, n);
    let b = release_spec(config, g, n, false);
    match n.device {
        None => {},
        Some((d0, x)) => {
            assert(used(g.device, d0) == used(a.device, d0) + x@);
            assert forall|d: DeviceId| #[trigger] used(b.device, d) == used(a.device, d) by {
                if d != d0 {
                    assert(used(g.device, d) == used(a.device, d));
                }
            }
        },
    }
}

/// Returning a lease right after it was granted restores the worker count and RAM; a
/// successful lease whose warm residency is admissible and not yet held leaves exactly that
/// residency behind (its bytes stay reserved on its device), and otherwise warm models and
/// every device's usage are as before the grant.
pub proof fn lemma_release_after_grant(
    config: SchedulerConfig,
    a: Accounting,
    n: NormalizedRequest,
    successful: bool,
)
    ensures
        ({
            let b = release_spec(config, grant_spec(a, n), n, successful);
            &&& b.workers == a.workers
            &&& b.ram == a.ram
            &&& match n.retain_warm {
                Some(w) => if successful && warm_admissible(config, n) && !a.warm.contains_key(
                    (w.model_digest, w.device),
                ) {
                    &&& b.warm == a.warm.insert((w.model_digest, w.device), w.bytes@ as nat)
                    &&& used(b.device, w.device) == used(a.device, w.device) + w.bytes@
                    &&& forall|d: DeviceId|
                        d != w.device ==> #[trigger] used(b.device, d) == used(a.device, d)
                } else {
                    &&& b.warm == a.warm
                    &&& forall|d: DeviceId| #[trigger] used(b.device, d) == used(a.device, d)
                },
                None => {
                    &&& b.warm == a.warm
                    &&& forall|d: DeviceId| #[trigger] used(b.device, d) == used(a.device, d)
                },
            }
        }),
{
    lemma_release_undoes_grant(config, a, n);
    let g = grant_spec(a, n);
    let base = release_spec(config, g, n, false);
    match n.retain_warm {
        Some(w) => {
            if successful && warm_admissible(config, n) && !a.warm.contains_key(
                (w.model_digest, w.device),
            ) {
                let b = release_spec(config, g, n, successful);
                assert(b.device == base.device.insert(w.device, used(base.device, w.device) + w.bytes@ as nat));
                assert forall|d: DeviceId| d != w.device implies #[trigger] used(b.device, d) == used(
                    a.device,
                    d,
                ) by {
                    assert(used(base.device, d) == used(a.device, d));
                }
                assert(used(base.device, w.device) == used(a.device, w.device));
            }
        },
        None => {},
    }
}

/// The round trip of one lease: `try_acquire` (or `acquire`) grants it, leaving
/// `grant_spec(a, n)`; `complete` is called or not (`done`); `release` then leaves
/// `release_spec(config, grant_spec(a, n), n, done)`. Starting from accounting with no zero
/// reservation on the lease's device and no warm entry for the lease's warm key, the worker
/// count and RAM are restored; a completed lease whose warm residency is admissible leaves
/// exactly one more warm model, its bytes added on its device; otherwise the accounting is
/// exactly as before the grant.
pub proof fn lemma_lease_round_trip(config: SchedulerConfig, a: Accounting, n: NormalizedRequest, done: bool)
    requires
        a.warm.dom().finite(),
        n.device matches Some((d, _)) ==> (a.device.contains_key(d) ==> a.device[d] > 0),
        n.retain_warm matches Some(w) ==> !a.warm.contains_key((w.model_digest, w.device)),
    ensures
        ({
            let b = release_spec(config, grant_spec(a, n), n, done);
            &&& b.workers == a.workers
            &&& b.ram == a.ram
            &&& if done && n.retain_warm is Some && warm_admissible(config, n) {
                let w = n.retain_warm->Some_0;
                &&& b.warm == a.warm.insert((w.model_digest, w.device), w.bytes@ as nat)
                &&& b.warm.dom().len() == a.warm.dom().len() + 1
                &&& b.device == a.device.insert(w.device, used(a.device, w.device) + w.bytes@ as nat)
            } else {
                b == a
            }
        }),
{
    let g = grant_spec(a, n);
    let base = release_spec(config, g, n, false);
    assert(base.device == a.device) by {
        match n.device {
            None => {},
            Some((d0, x)) => {
                assert(used(g.device, d0) == used(a.device, d0) + x@);
                if used(a.device, d0) == 0 {
                    assert(!a.device.contains_key(d0));
                    assert(base.device =~= a.device);
                } else {
                    assert(a.device.contains_key(d0));
                    assert(base.device =~= a.device);
                }
            },
        }
    }
    let b = release_spec(config, g, n, done);
    if done && n.retain_warm is Some && warm_admissible(config, n) {
        let w = n.retain_warm->Some_0;
        assert(b.device == base.device.insert(w.device, used(base.device, w.device) + w.bytes@ as nat));
    } else {
        assert(b.warm == a.warm);
        assert(b.device == base.device);
    }
}

/// After observations made in order on a freshly granted lease, each accepted, the recorded
/// peak RAM is the maximum of the RAM values observed (none when none was observed), and the
/// recorded peak VRAM likewise the maximum of the VRAM values observed.
pub proof fn lemma_measured_peaks_are_maxima(n: NormalizedRequest, obs: Seq<(Option<Bytes>, Option<Bytes>)>)
    requires
        all_accepted(LeaseMeasurement { peak_ram: None, peak_vram: None }, n, obs),
    ensures
        ({
            let m = observe_all(LeaseMeasurement { peak_ram: None, peak_vram: None }, n, obs);
            &&& match m.peak_ram {
                Some(h) => (forall|i: int| 0 <= i < obs.len() && (#[trigger] obs[i]).0 is Some ==> obs[i].0->Some_0@ <= h@)
                    && exists|i: int| 0 <= i < obs.len() && obs[i].0 == Some(h),
                None => forall|i: int| 0 <= i < obs.len() ==> (#[trigger] obs[i]).0 is None,
            }
            &&& match m.peak_vram {
                Some(h) => (forall|i: int| 0 <= i < obs.len() && (#[trigger] obs[i]).1 is Some ==> obs[i].1->Some_0@ <= h@)
                    && exists|i: int| 0 <= i < obs.len() && obs[i].1 == Some(h),
                None => forall|i: int| 0 <= i < obs.len() ==> (#[trigger] obs[i]).1 is None,
            }
        }),
{
    lemma_peaks_are_highest_observations(n, obs);
    let rs = ram_observations(obs);
    let vs = vram_observations(obs);
    lemma_highest_is_maximum(rs);
    lemma_highest_is_maximum(vs);
    let m = observe_all(LeaseMeasurement { peak_ram: None, peak_vram: None }, n, obs);
    match m.peak_ram {
        Some(h) => {
            let j = choose|j: int| 0 <= j < rs.len() && rs[j] == Some(h);
            assert(obs[j].0 == Some(h));
            assert forall|i: int| 0 <= i < obs.len() && (#[trigger] obs[i]).0 is Some implies obs[i].0->Some_0@ <= h@ by {
                assert(rs[i] == obs[i].0);
            }
        },
        None => {
            assert forall|i: int| 0 <= i < obs.len() implies (#[trigger] obs[i]).0 is None by {
                assert(rs[i] == obs[i].0);
            }
        },
    }
    match m.peak_vram {
        Some(h) => {
            let j = choose|j: int| 0 <= j < vs.len() && vs[j] == Some(h);
            assert(obs[j].1 == Some(h));
            assert forall|i: int| 0 <= i < obs.len() && (#[trigger] obs[i]).1 is Some implies obs[i].1->Some_0@ <= h@ by {
                assert(vs[i] == obs[i].1);
            }
        },
        None => {
            assert forall|i: int| 0 <= i < obs.len() implies (#[trigger] obs[i]).1 is None by {
                assert(vs[i] == obs[i].1);
            }
        },
    }
}

/// The highest of the observed values, or none when nothing was observed.
pub open spec fn highest(obs: Seq<Option<Bytes>>) -> Option<Bytes>
    decreases obs.len(),
{
    if obs.len() == 0 {
        None
    } else {
        match obs.last() {
            None => highest(obs.drop_last()),
            Some(o) => Some(peak_spec(highest(obs.drop_last()), o)),
        }
    }
}

/// The measurement after the observations `(RAM, VRAM)` are made in order from `m`.
pub open spec fn observe_all(
    m: LeaseMeasurement,
    n: NormalizedRequest,
    obs: Seq<(Option<Bytes>, Option<Bytes>)>,
) -> LeaseMeasurement
    decreases obs.len(),
{
    if obs.len() == 0 {
        m
    } else {
        observe_spec(observe_all(m, n, obs.drop_last()), n, obs.last().0, obs.last().1).0
    }
}

/// Every one of the observations, made in order from `m`, was accepted.
pub open spec fn all_accepted(
    m: LeaseMeasurement,
    n: NormalizedRequest,
    obs: Seq<(Option<Bytes>, Option<Bytes>)>,
) -> bool
    decreases obs.len(),
{
    obs.len() == 0 || (all_accepted(m, n, obs.drop_last()) && observe_spec(
        observe_all(m, n, obs.drop_last()),
        n,
        obs.last().0,
        obs.last().1,
    ).1 is Ok)
}

/// The RAM observations of a sequence.
pub open spec fn ram_observations(obs: Seq<(Option<Bytes>, Option<Bytes>)>) -> Seq<Option<Bytes>> {
    Seq::new(obs.len(), |i: int| obs[i].0)
}

/// The VRAM observations of a sequence.
pub open spec fn vram_observations(obs: Seq<(Option<Bytes>, Option<Bytes>)>) -> Seq<Option<Bytes>> {
    Seq::new(obs.len(), |i: int| obs[i].1)
}

/// `highest` is the maximum: no observed value exceeds it and it is one of them; it is
/// none exactly when nothing was observed.
pub proof fn lemma_highest_is_maximum(obs: Seq<Option<Bytes>>)
    ensures
        match highest(obs) {
            Some(h) => (forall|i: int| 0 <= i < obs.len() && (#[trigger] obs[i]) is Some ==> obs[i]->Some_0@ <= h@)
                && exists|i: int| 0 <= i < obs.len() && obs[i] == Some(h),
            None => forall|i: int| 0 <= i < obs.len() ==> (#[trigger] obs[i]) is None,
        },
    decreases obs.len(),
{
    if obs.len() > 0 {
        let init = obs.drop_last();
        lemma_highest_is_maximum(init);
        let last = obs.len() - 1;
        assert forall|i: int| 0 <= i < last implies #[trigger] obs[i] == init[i] by {}
        match highest(obs) {
            Some(h) => {
                assert forall|i: int| 0 <= i < obs.len() && (#[trigger] obs[i]) is Some implies obs[i]->Some_0@
                    <= h@ by {
                    if i < last {
                        assert(obs[i] == init[i]);
                    }
                }
                if obs.last() is Some && (highest(init) is None || highest(init)->Some_0@ < obs.last()->Some_0@) {
                    assert(obs[last] == Some(h));
                } else {
                    let j = choose|j: int| 0 <= j < init.len() && init[j] == Some(h);
                    assert(obs[j] == Some(h));
                }
            },
            None => {
                assert forall|i: int| 0 <= i < obs.len() implies (#[trigger] obs[i]) is None by {
                    if i < last {
                        assert(obs[i] == init[i]);
                    }
                }
            },
        }
    }
}

/// A lease's recorded peaks are the highest of all its accepted observations: starting
/// from no observation, after observations that were each accepted, the peak RAM and peak
/// VRAM are `highest` of the RAM and of the VRAM values observed.
pub proof fn lemma_peaks_are_highest_observations(
    n: NormalizedRequest,
    obs: Seq<(Option<Bytes>, Option<Bytes>)>,
)
    requires
        all_accepted(LeaseMeasurement { peak_ram: None, peak_vram: None }, n, obs),
    ensures
        observe_all(LeaseMeasurement { peak_ram: None, peak_vram: None }, n, obs).peak_ram
            == highest(ram_observations(obs)),
        observe_all(LeaseMeasurement { peak_ram: None, peak_vram: None }, n, obs).peak_vram
            == highest(vram_observations(obs)),
    decreases obs.len(),
{
    if obs.len() > 0 {
        let init = obs.drop_last();
        lemma_peaks_are_highest_observations(n, init);
        assert(ram_observations(obs).drop_last() =~= ram_observations(init));
        assert(vram_observations(obs).drop_last() =~= vram_observations(init));
        assert(ram_observations(obs).last() == obs.last().0);
        assert(vram_observations(obs).last() == obs.last().1);
    }
}

/// Granting a request that fits keeps every reservation within its capacity.
pub proof fn lemma_grant_within_budgets(config: SchedulerConfig, a: Accounting, n: NormalizedRequest)
    requires
        within_budgets(config, a),
        fits_spec(config, a, n),
        match n.device {
            None => true,
            Some((d, _)) => assoc(config.device_budgets@, d) is Some,
        },
    ensures
        within_budgets(config, grant_spec(a, n)),
{
    let g = grant_spec(a, n);
    assert forall|d: DeviceId| #[trigger] g.device.contains_key(d) implies assoc(
        config.device_budgets@,
        d,
    ) is Some && g.device[d] <= budget_of(config, d) by {
        match n.device {
            None => {
                assert(a.device.contains_key(d));
            },
            Some((d0, _)) => {
                if d != d0 {
                    assert(a.device.contains_key(d));
                }
            },
        }
    }
}

/// Every request the scheduler resolves names a configured device and stays within its
/// budgets, so a granted request never exceeds any capacity.
pub proof fn lemma_normalized_within_budget(config: SchedulerConfig, request: LeaseRequest)
    requires
        normalize_spec(config, request) is Ok,
    ensures
        ({
            let n = normalize_spec(config, request)->Ok_0;
            &&& n.ram@ <= config.ram_budget@
            &&& match n.device {
                None => true,
                Some((d, b)) => assoc(config.device_budgets@, d) is Some && b@ <= budget_of(config, d),
            }
            &&& n.retain_warm is Some ==> warm_admissible(config, n)
        }),
{
}

/// A guarded unknown estimate reserves the device's entire budget.
pub proof fn lemma_guarded_unknown_reserves_budget(config: SchedulerConfig, request: LeaseRequest, d: DeviceId)
    requires
        request.guard_unknown,
        request.device == Some((d, Estimate::<Bytes>::Unknown)),
        assoc(config.device_budgets@, d) is Some,
        normalize_spec(config, request) is Ok,
    ensures
        normalize_spec(config, request)->Ok_0.device == Some((d, assoc(config.device_budgets@, d)->Some_0)),
{
}

/// An observation above the reservation is refused and names the overrun.
pub proof fn lemma_overrun_is_refused(m: LeaseMeasurement, n: NormalizedRequest, peak_vram: Bytes)
    requires
        peak_vram@ > reserved_vram(n)@,
    ensures
        observe_spec(m, n, None, Some(peak_vram)).1 == Err::<(), SchedulerError>(
            SchedulerError::ObservationExceeded {
                resource: "VRAM",
                observed: peak_vram,
                reserved: reserved_vram(n),
            },
        ),
{
}

} // verus!
