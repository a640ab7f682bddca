//! Explainable candidate filtering and deterministic profile selection.

use std::collections::BTreeSet;

use vstd::prelude::*;

use crate::canonical::{
    capability_text, device_text, owned, push_str, Capability, DeviceId, DeviceKind,
    PlacementPolicy, Profile,
};
use crate::digest::Sha256Digest;
use crate::engine::{DeviceInventory, EngineCandidate, EngineDescriptor, HardwareInventory, NetworkUse};
use crate::id::ModelId;
use crate::quantity::{Bytes, MicroUsd, Millis};
use crate::ranking::{key_before, key_precedes, key_view, stable_sort_by_key, stably_sorted, TextKey};
use crate::resource::{Estimate, EstimateSource, ResourceEstimate};
use crate::text::{chars_of, decimal, push_decimal};

verus! {

broadcast use Bytes::lemma_spec_new;

/// The set holds an element equal to `k`.
pub open spec fn set_has<K: DeepView>(m: Set<K>, k: K) -> bool {
    exists|x: K| #[trigger] m.contains(x) && x.deep_view() == k.deep_view()
}

/// Calls `BTreeSet::<String>::contains`, which is true when the set holds an element that
/// compares equal to `k`; `String` compares by its bytes, so that element is the same text.
#[verifier::external_body]
pub(crate) fn text_set_contains(m: &BTreeSet<String>, k: &String) -> (r: bool)
    ensures
        r == set_has(m@, *k),
{
    m.contains(k)
}

/// Calls `BTreeSet::<Capability>::contains`, which is true when the set holds an element
/// that compares equal to `k`; the derived order of a fieldless enum compares equal
/// exactly the same variant.
#[verifier::external_body]
pub(crate) fn capability_set_contains(m: &BTreeSet<Capability>, k: &Capability) -> (r: bool)
    ensures
        r == set_has(m@, *k),
{
    m.contains(k)
}

/// Calls `BTreeSet::<DeviceKind>::contains`, which is true when the set holds an element
/// that compares equal to `k`; the derived order of a fieldless enum compares equal
/// exactly the same variant.
#[verifier::external_body]
pub(crate) fn device_kind_set_contains(m: &BTreeSet<DeviceKind>, k: &DeviceKind) -> (r: bool)
    ensures
        r == set_has(m@, *k),
{
    m.contains(k)
}

/// Model readiness attached to one engine candidate.
#[derive(Debug, Clone, PartialEq, Eq)]
pub enum ModelAvailability {
    /// Candidate does not require a model.
    NotRequired,
    /// The exact immutable model is installed.
    Available {
        /// Installed model ID.
        id: ModelId,
        /// Digest participating in cache identity.
        digest: Sha256Digest,
    },
    /// A required model is absent.
    Missing {
        /// Missing model ID.
        id: ModelId,
    },
}

/// Descriptor, estimate, and model state considered as one candidate.
#[derive(Debug, Clone, PartialEq, Eq)]
pub struct CandidateInput {
    /// Engine-level capabilities and policy facts.
    pub descriptor: EngineDescriptor,
    /// Concrete backend/device placement and estimate.
    pub candidate: EngineCandidate,
    /// Model availability for this placement.
    pub model: ModelAvailability,
}

/// Stable planner reason code.
#[derive(Debug, Clone, Copy, PartialEq, Eq, PartialOrd, Ord)]
pub enum ReasonCode {
    /// Candidate passed all hard constraints.
    Accepted,
    /// Engine does not provide the required semantic capability.
    CapabilityUnsupported,
    /// Candidate identity does not match its descriptor.
    DescriptorMismatch,
    /// Backend/device pair is not declared compatible.
    DeviceIncompatible,
    /// Placement policy excludes the device.
    PlacementRejected,
    /// Candidate is not in the explicit allow-list.
    EngineNotAllowed,
    /// Required model is absent.
    ModelUnavailable,
    /// Offline policy cannot prove network-free execution.
    OfflineViolation,
    /// Private policy cannot prove content remains local.
    PrivacyViolation,
    /// A hard RAM estimate is unknown.
    RamUnknown,
    /// Peak RAM exceeds the applicable hard bound.
    RamBudgetExceeded,
    /// A hard VRAM estimate is unknown.
    VramUnknown,
    /// Peak VRAM exceeds the applicable hard bound.
    VramBudgetExceeded,
    /// A hard remote-cost estimate is unknown.
    CostUnknown,
    /// Remote cost exceeds the hard bound.
    CostBudgetExceeded,
    /// A hard latency estimate is unknown.
    LatencyUnknown,
    /// Estimated latency exceeds the deadline.
    DeadlineExceeded,
}

/// Machine-readable code plus a stable human explanation.
#[derive(Debug, Clone, PartialEq, Eq)]
pub struct PlannerReason {
    /// Stable code suitable for automation.
    pub code: ReasonCode,
    /// Human-readable explanation with relevant values.
    pub explanation: String,
}

/// Result for one enumerated candidate.
#[derive(Debug, Clone, PartialEq, Eq)]
pub struct CandidateDecision {
    /// Original candidate.
    pub input: CandidateInput,
    /// True only when every hard constraint passed.
    pub accepted: bool,
    /// Deterministically ordered reasons.
    pub reasons: Vec<PlannerReason>,
}

/// Planner hard constraints and soft profile.
#[derive(Debug, Clone, PartialEq, Eq)]
pub struct PlannerPolicy {
    /// Soft objective bundle, with documented hard restrictions for some profiles.
    pub profile: Profile,
    /// Required semantic capability.
    pub capability: Capability,
    /// Device placement constraint.
    pub placement: PlacementPolicy,
    /// Empty means every discovered engine is allowed.
    pub allowed_engines: BTreeSet<String>,
    /// Maximum peak host RAM.
    pub max_ram: Option<Bytes>,
    /// Maximum peak device memory.
    pub max_vram: Option<Bytes>,
    /// Maximum remote monetary cost.
    pub max_remote_cost: Option<MicroUsd>,
    /// Maximum estimated stage duration.
    pub deadline: Option<Millis>,
    /// Require a provably network-free candidate.
    pub offline: bool,
    /// Require a candidate that cannot disclose document content.
    pub private: bool,
    /// Explicit opt-in allowing unknown values to pass hard numeric limits.
    pub allow_unknown_hard_estimates: bool,
}

impl PlannerPolicy {
    /// Creates policy defaults for one built-in profile: CPU-only placement for the CPU
    /// profile, a 2 GiB VRAM bound for low VRAM, and the offline or private requirement
    /// for those profiles; no other bound.
    pub fn for_profile(profile: Profile, capability: Capability) -> (p: Self)
        ensures
            p.profile == profile,
            p.capability == capability,
            p.placement == (if profile == Profile::Cpu {
                PlacementPolicy::CpuOnly
            } else {
                PlacementPolicy::Auto
            }),
            p.allowed_engines@.is_empty(),
            p.max_ram is None,
            match p.max_vram {
                Some(b) => profile == Profile::LowVram && b@ == 2 * Bytes::GIB,
                None => profile != Profile::LowVram,
            },
            p.max_remote_cost is None,
            p.deadline is None,
            p.offline == (profile == Profile::Offline),
            p.private == (profile == Profile::Private),
            !p.allow_unknown_hard_estimates,
    {
        let mut policy = PlannerPolicy {
            profile,
            capability,
            placement: PlacementPolicy::Auto,
            allowed_engines: BTreeSet::new(),
            max_ram: None,
            max_vram: None,
            max_remote_cost: None,
            deadline: None,
            offline: false,
            private: false,
            allow_unknown_hard_estimates: false,
        };
        match profile {
            Profile::Cpu => policy.placement = PlacementPolicy::CpuOnly,
            Profile::LowVram => policy.max_vram = Some(Bytes::new(2 * Bytes::GIB)),
            Profile::Offline => policy.offline = true,
            Profile::Private => policy.private = true,
            Profile::Fast | Profile::Balanced | Profile::Accurate | Profile::Cheap => {},
        }
        policy
    }
}

/// A reason as a code and its explanation text.
pub open spec fn reasons_view(v: Seq<PlannerReason>) -> Seq<(ReasonCode, Seq<char>)> {
    Seq::new(v.len(), |i: int| (v[i].code, v[i].explanation@))
}

/// One reason when `c` holds, none otherwise.
pub open spec fn when(c: bool, code: ReasonCode, text: Seq<char>) -> Seq<(ReasonCode, Seq<char>)> {
    if c {
        seq![(code, text)]
    } else {
        Seq::empty()
    }
}

/// Some declared compatibility names the candidate's backend and device family.
pub open spec fn backend_compatible(d: EngineDescriptor, c: EngineCandidate) -> bool {
    exists|i: int|
        0 <= i < d.compatibility@.len() && (#[trigger] d.compatibility@[i]).backend@ == c.backend@
            && set_has(d.compatibility@[i].devices@, c.device@.0)
}

/// The inventory lists the device.
pub open spec fn device_listed(inv: HardwareInventory, d: DeviceId) -> bool {
    exists|i: int| 0 <= i < inv.devices@.len() && (#[trigger] inv.devices@[i]).id == d
}

/// The placement policy admits the candidate's device.
pub open spec fn placement_allows(p: PlacementPolicy, c: EngineCandidate) -> bool {
    match p {
        PlacementPolicy::Auto | PlacementPolicy::Prefer(_) => true,
        PlacementPolicy::CpuOnly => c.device@.0 == DeviceKind::Cpu,
        PlacementPolicy::Require(d) => c.device == d,
    }
}

/// The smaller of two optional bounds; a missing bound does not constrain.
pub open spec fn min_limit(a: Option<u64>, b: Option<u64>) -> Option<u64> {
    match (a, b) {
        (Some(x), Some(y)) => Some(if x <= y {
            x
        } else {
            y
        }),
        (Some(x), None) => Some(x),
        (None, Some(y)) => Some(y),
        (None, None) => None,
    }
}

/// Raw byte count of an optional bound.
pub open spec fn bytes_limit(b: Option<Bytes>) -> Option<u64> {
    match b {
        Some(x) => Some(x@),
        None => None,
    }
}

/// Raw byte count of a known estimate.
pub open spec fn known_bytes(e: Estimate<Bytes>) -> Option<u64> {
    match e {
        Estimate::Known(x) => Some(x@),
        Estimate::Unknown => None,
    }
}

/// Available memory of the first inventory entry for the device, when known.
pub open spec fn first_device_memory(devs: Seq<DeviceInventory>, d: DeviceId) -> Option<u64>
    decreases devs.len(),
{
    if devs.len() == 0 {
        None
    } else if devs[0].id == d {
        known_bytes(devs[0].memory_available)
    } else {
        first_device_memory(devs.drop_first(), d)
    }
}

/// The RAM bound: the policy bound and the available host RAM, whichever is smaller.
pub open spec fn ram_limit(policy: PlannerPolicy, inv: HardwareInventory) -> Option<u64> {
    min_limit(bytes_limit(policy.max_ram), known_bytes(inv.ram_available))
}

/// The VRAM bound: the policy bound alone on CPU, else also the device's available memory.
pub open spec fn vram_limit(policy: PlannerPolicy, inv: HardwareInventory, c: EngineCandidate) -> Option<u64> {
    if c.device@.0 == DeviceKind::Cpu {
        bytes_limit(policy.max_vram)
    } else {
        min_limit(bytes_limit(policy.max_vram), first_device_memory(inv.devices@, c.device))
    }
}

/// Raw value of a byte estimate.
pub open spec fn raw_bytes(e: Estimate<Bytes>) -> Estimate<u64> {
    match e {
        Estimate::Known(x) => Estimate::Known(x@),
        Estimate::Unknown => Estimate::Unknown,
    }
}

/// Raw value of a cost estimate.
pub open spec fn raw_cost(e: Estimate<MicroUsd>) -> Estimate<u64> {
    match e {
        Estimate::Known(x) => Estimate::Known(x@),
        Estimate::Unknown => Estimate::Unknown,
    }
}

/// Raw value of a duration estimate.
pub open spec fn raw_millis(e: Estimate<Millis>) -> Estimate<u64> {
    match e {
        Estimate::Known(x) => Estimate::Known(x@),
        Estimate::Unknown => Estimate::Unknown,
    }
}

/// The reason a hard bound gives, if any: an unknown estimate without the opt-in, or a
/// known estimate above the bound. No bound, no reason.
pub open spec fn limit_reasons(
    label: Seq<char>,
    estimate: Estimate<u64>,
    limit: Option<u64>,
    allow_unknown: bool,
    unknown_code: ReasonCode,
    exceeded_code: ReasonCode,
) -> Seq<(ReasonCode, Seq<char>)> {
    match limit {
        None => Seq::empty(),
        Some(l) => match estimate {
            Estimate::Unknown => when(
                !allow_unknown,
                unknown_code,
                label + " estimate is unknown under a hard limit"@,
            ),
            Estimate::Known(v) => when(
                v > l,
                exceeded_code,
                "estimated "@ + label + " "@ + decimal(v as nat) + " exceeds hard limit "@ + decimal(
                    l as nat,
                ),
            ),
        },
    }
}

/// The text of a candidate's device.
pub open spec fn device_name(c: EngineCandidate) -> Seq<char> {
    device_text(c.device@.0, c.device@.1)
}

/// The identity and placement constraints a candidate breaks: the capability, the
/// descriptor identity, backend compatibility, inventory presence, and placement.
pub open spec fn placement_rejections(policy: PlannerPolicy, inv: HardwareInventory, input: CandidateInput) -> Seq<
    (ReasonCode, Seq<char>),
> {
    let d = input.descriptor;
    let c = input.candidate;
    when(
        !set_has(d.capabilities@, policy.capability),
        ReasonCode::CapabilityUnsupported,
        "engine "@ + d.id@ + " does not declare "@ + capability_text(policy.capability),
    ) + when(
        d.id@ != c.engine_id@,
        ReasonCode::DescriptorMismatch,
        "candidate engine ID differs from its descriptor"@,
    ) + when(
        !backend_compatible(d, c),
        ReasonCode::DeviceIncompatible,
        "backend "@ + c.backend@ + " on "@ + device_name(c) + " is not declared compatible"@,
    ) + when(
        c.device@.0 != DeviceKind::Cpu && !device_listed(inv, c.device),
        ReasonCode::DeviceIncompatible,
        "device "@ + device_name(c) + " is absent from hardware inventory"@,
    ) + when(
        !placement_allows(policy.placement, c),
        ReasonCode::PlacementRejected,
        "device "@ + device_name(c) + " violates placement policy"@,
    )
}

/// The policy constraints a candidate breaks: the allow-list, a missing model, and
/// network use under the offline or private requirement.
pub open spec fn policy_rejections(policy: PlannerPolicy, input: CandidateInput) -> Seq<(ReasonCode, Seq<char>)> {
    let d = input.descriptor;
    let network_free = d.network_use == NetworkUse::Never;
    when(
        !policy.allowed_engines@.is_empty() && !set_has(policy.allowed_engines@, d.id),
        ReasonCode::EngineNotAllowed,
        "engine "@ + d.id@ + " is absent from the allow-list"@,
    ) + when(
        input.model is Missing,
        ReasonCode::ModelUnavailable,
        "required model "@ + input.model->Missing_id@ + " is not installed"@,
    ) + when(
        policy.offline && !network_free,
        ReasonCode::OfflineViolation,
        "offline policy requires network_use=none"@,
    ) + when(
        policy.private && !network_free,
        ReasonCode::PrivacyViolation,
        "private policy requires network_use=none"@,
    )
}

/// The resource bounds a candidate breaks: RAM, VRAM, remote cost, and latency.
pub open spec fn bound_rejections(policy: PlannerPolicy, inv: HardwareInventory, input: CandidateInput) -> Seq<
    (ReasonCode, Seq<char>),
> {
    let c = input.candidate;
    limit_reasons(
        "RAM"@,
        raw_bytes(c.resources.peak_ram),
        ram_limit(policy, inv),
        policy.allow_unknown_hard_estimates,
        ReasonCode::RamUnknown,
        ReasonCode::RamBudgetExceeded,
    ) + limit_reasons(
        "VRAM"@,
        raw_bytes(c.resources.peak_vram),
        vram_limit(policy, inv, c),
        policy.allow_unknown_hard_estimates,
        ReasonCode::VramUnknown,
        ReasonCode::VramBudgetExceeded,
    ) + limit_reasons(
        "remote cost"@,
        raw_cost(c.resources.remote_cost),
        match policy.max_remote_cost {
            Some(m) => Some(m@),
            None => None,
        },
        policy.allow_unknown_hard_estimates,
        ReasonCode::CostUnknown,
        ReasonCode::CostBudgetExceeded,
    ) + limit_reasons(
        "latency"@,
        raw_millis(c.resources.latency),
        match policy.deadline {
            Some(m) => Some(m@),
            None => None,
        },
        policy.allow_unknown_hard_estimates,
        ReasonCode::LatencyUnknown,
        ReasonCode::DeadlineExceeded,
    )
}

/// The hard constraints a candidate breaks, in checking order, with explanations.
pub open spec fn rejections(policy: PlannerPolicy, inv: HardwareInventory, input: CandidateInput) -> Seq<
    (ReasonCode, Seq<char>),
> {
    placement_rejections(policy, inv, input) + policy_rejections(policy, input) + bound_rejections(
        policy,
        inv,
        input,
    )
}

/// The reasons recorded for a candidate: its rejections, or the single acceptance.
pub open spec fn decision_reasons(policy: PlannerPolicy, inv: HardwareInventory, input: CandidateInput) -> Seq<
    (ReasonCode, Seq<char>),
> {
    if rejections(policy, inv, input).len() == 0 {
        seq![(ReasonCode::Accepted, "candidate satisfies every hard constraint"@)]
    } else {
        rejections(policy, inv, input)
    }
}

/// Records one reason.
fn reject(reasons: &mut Vec<PlannerReason>, code: ReasonCode, explanation: String)
    ensures
        reasons_view(final(reasons)@) == reasons_view(old(reasons)@) + seq![(code, explanation@)],
{
    let ghost e = explanation@;
    reasons.push(PlannerReason { code, explanation });
    assert(reasons_view(reasons@) =~= reasons_view(old(reasons)@) + seq![(code, e)]);
}

/// Records a reason when `c` holds.
fn reject_when(reasons: &mut Vec<PlannerReason>, c: bool, code: ReasonCode, explanation: String)
    ensures
        reasons_view(final(reasons)@) == reasons_view(old(reasons)@) + when(c, code, explanation@),
{
    if c {
        reject(reasons, code, explanation);
    } else {
        assert(reasons_view(reasons@) + when(c, code, explanation@) =~= reasons_view(reasons@));
    }
}

/// Records the reason a hard bound gives, if any.
fn check_limit(
    reasons: &mut Vec<PlannerReason>,
    label: &str,
    estimate: Estimate<u64>,
    limit: Option<u64>,
    allow_unknown: bool,
    unknown_code: ReasonCode,
    exceeded_code: ReasonCode,
)
    ensures
        reasons_view(final(reasons)@) == reasons_view(old(reasons)@) + limit_reasons(
            label@,
            estimate,
            limit,
            allow_unknown,
            unknown_code,
            exceeded_code,
        ),
{
    let l = match limit {
        Some(l) => l,
        None => {
            assert(reasons_view(reasons@) + Seq::<(ReasonCode, Seq<char>)>::empty() =~= reasons_view(reasons@));
            return ;
        },
    };
    match estimate {
        Estimate::Unknown => {
            let mut text = owned(label);
            push_str(&mut text, " estimate is unknown under a hard limit");
            reject_when(reasons, !allow_unknown, unknown_code, text);
        },
        Estimate::Known(v) => {
            let mut text = owned("estimated ");
            push_str(&mut text, label);
            push_str(&mut text, " ");
            push_decimal(&mut text, v);
            push_str(&mut text, " exceeds hard limit ");
            push_decimal(&mut text, l);
            reject_when(reasons, v > l, exceeded_code, text);
        },
    }
}

/// Raw value of a byte estimate.
fn bytes_raw(e: &Estimate<Bytes>) -> (r: Estimate<u64>)
    ensures
        r == raw_bytes(*e),
{
    match e {
        Estimate::Known(b) => Estimate::Known(b.get()),
        Estimate::Unknown => Estimate::Unknown,
    }
}

/// The smaller of two optional bounds.
fn minimum(a: Option<u64>, b: Option<u64>) -> (r: Option<u64>)
    ensures
        r == min_limit(a, b),
{
    match (a, b) {
        (Some(x), Some(y)) => Some(if x <= y {
            x
        } else {
            y
        }),
        (Some(x), None) => Some(x),
        (None, Some(y)) => Some(y),
        (None, None) => None,
    }
}

/// The RAM bound for candidates on this host.
fn effective_ram_limit(policy: &PlannerPolicy, inventory: &HardwareInventory) -> (r: Option<u64>)
    ensures
        r == ram_limit(*policy, *inventory),
{
    let bound = match policy.max_ram {
        Some(b) => Some(b.get()),
        None => None,
    };
    let available = match inventory.ram_available {
        Estimate::Known(b) => Some(b.get()),
        Estimate::Unknown => None,
    };
    minimum(bound, available)
}

/// The VRAM bound for this candidate.
fn effective_vram_limit(policy: &PlannerPolicy, inventory: &HardwareInventory, candidate: &EngineCandidate) -> (r:
    Option<u64>)
    ensures
        r == vram_limit(*policy, *inventory, *candidate),
{
    let bound = match policy.max_vram {
        Some(b) => Some(b.get()),
        None => None,
    };
    if candidate.device.kind() == DeviceKind::Cpu {
        return bound;
    }
    let mut available: Option<u64> = None;
    let mut i: usize = 0;
    assert(inventory.devices@.skip(0) == inventory.devices@);
    while i < inventory.devices.len()
        invariant
            i <= inventory.devices@.len(),
            bound == bytes_limit(policy.max_vram),
            candidate.device@.0 != DeviceKind::Cpu,
            available is None,
            first_device_memory(inventory.devices@, candidate.device) == first_device_memory(
                inventory.devices@.skip(i as int),
                candidate.device,
            ),
        decreases inventory.devices@.len() - i,
    {
        let device = &inventory.devices[i];
        assert(inventory.devices@.skip(i as int)[0] == *device);
        assert(inventory.devices@.skip(i as int).drop_first() == inventory.devices@.skip(i + 1));
        if device.id == candidate.device {
            available = match device.memory_available {
                Estimate::Known(b) => Some(b.get()),
                Estimate::Unknown => None,
            };
            return minimum(bound, available);
        }
        i = i + 1;
    }
    assert(inventory.devices@.skip(i as int).len() == 0);
    minimum(bound, available)
}

/// True when some declared compatibility names the backend and device family.
fn compatible(descriptor: &EngineDescriptor, candidate: &EngineCandidate) -> (r: bool)
    ensures
        r == backend_compatible(*descriptor, *candidate),
{
    let kind = candidate.device.kind();
    let mut i: usize = 0;
    while i < descriptor.compatibility.len()
        invariant
            i <= descriptor.compatibility@.len(),
            kind == candidate.device@.0,
            forall|j: int|
                0 <= j < i ==> !((#[trigger] descriptor.compatibility@[j]).backend@ == candidate.backend@
                    && set_has(descriptor.compatibility@[j].devices@, kind)),
        decreases descriptor.compatibility@.len() - i,
    {
        let c = &descriptor.compatibility[i];
        if c.backend.same_as(&candidate.backend) && device_kind_set_contains(&c.devices, &kind) {
            return true;
        }
        i = i + 1;
    }
    false
}

/// True when the inventory lists the device.
fn listed(inventory: &HardwareInventory, device: DeviceId) -> (r: bool)
    ensures
        r == device_listed(*inventory, device),
{
    let mut i: usize = 0;
    while i < inventory.devices.len()
        invariant
            i <= inventory.devices@.len(),
            forall|j: int| 0 <= j < i ==> (#[trigger] inventory.devices@[j]).id != device,
        decreases inventory.devices@.len() - i,
    {
        if inventory.devices[i].id == device {
            return true;
        }
        i = i + 1;
    }
    false
}

/// True when the placement policy admits the candidate's device.
fn placement_matches(policy: &PlacementPolicy, candidate: &EngineCandidate) -> (r: bool)
    ensures
        r == placement_allows(*policy, *candidate),
{
    match policy {
        PlacementPolicy::Auto | PlacementPolicy::Prefer(_) => true,
        PlacementPolicy::CpuOnly => candidate.device.kind() == DeviceKind::Cpu,
        PlacementPolicy::Require(device) => candidate.device == *device,
    }
}

/// Records the identity and placement constraints a candidate breaks.
fn check_placement(
    reasons: &mut Vec<PlannerReason>,
    policy: &PlannerPolicy,
    inventory: &HardwareInventory,
    input: &CandidateInput,
)
    ensures
        reasons_view(final(reasons)@) == reasons_view(old(reasons)@) + placement_rejections(
            *policy,
            *inventory,
            *input,
        ),
{
    let ghost r0 = reasons_view(reasons@);
    let descriptor = &input.descriptor;
    let candidate = &input.candidate;

    let mut text = owned("engine ");
    push_str(&mut text, descriptor.id.as_str());
    push_str(&mut text, " does not declare ");
    let capability = policy.capability.to_string();
    push_str(&mut text, capability.as_str());
    let declared = capability_set_contains(&descriptor.capabilities, &policy.capability);
    reject_when(reasons, !declared, ReasonCode::CapabilityUnsupported, text);

    reject_when(
        reasons,
        descriptor.id != candidate.engine_id,
        ReasonCode::DescriptorMismatch,
        owned("candidate engine ID differs from its descriptor"),
    );

    let device = candidate.device.to_string();
    let mut text = owned("backend ");
    push_str(&mut text, candidate.backend.as_str());
    push_str(&mut text, " on ");
    push_str(&mut text, device.as_str());
    push_str(&mut text, " is not declared compatible");
    reject_when(reasons, !compatible(descriptor, candidate), ReasonCode::DeviceIncompatible, text);

    let mut text = owned("device ");
    push_str(&mut text, device.as_str());
    push_str(&mut text, " is absent from hardware inventory");
    let absent = candidate.device.kind() != DeviceKind::Cpu && !listed(inventory, candidate.device);
    reject_when(reasons, absent, ReasonCode::DeviceIncompatible, text);

    let mut text = owned("device ");
    push_str(&mut text, device.as_str());
    push_str(&mut text, " violates placement policy");
    reject_when(
        reasons,
        !placement_matches(&policy.placement, candidate),
        ReasonCode::PlacementRejected,
        text,
    );
    assert(reasons_view(reasons@) =~= r0 + placement_rejections(*policy, *inventory, *input));
}

/// Records the policy constraints a candidate breaks.
fn check_policy(reasons: &mut Vec<PlannerReason>, policy: &PlannerPolicy, input: &CandidateInput)
    ensures
        reasons_view(final(reasons)@) == reasons_view(old(reasons)@) + policy_rejections(*policy, *input),
{
    let ghost r0 = reasons_view(reasons@);
    let descriptor = &input.descriptor;
    let mut text = owned("engine ");
    push_str(&mut text, descriptor.id.as_str());
    push_str(&mut text, " is absent from the allow-list");
    let not_allowed = !policy.allowed_engines.is_empty() && !text_set_contains(
        &policy.allowed_engines,
        &descriptor.id,
    );
    reject_when(reasons, not_allowed, ReasonCode::EngineNotAllowed, text);
    let ghost r1 = reasons_view(reasons@);
    match &input.model {
        ModelAvailability::Missing { id } => {
            let mut text = owned("required model ");
            push_str(&mut text, id.as_str());
            push_str(&mut text, " is not installed");
            reject(reasons, ReasonCode::ModelUnavailable, text);
        },
        _ => {
            assert(reasons_view(reasons@) =~= r1 + when(false, ReasonCode::ModelUnavailable, Seq::empty()));
        },
    }
    let networked = match descriptor.network_use {
        NetworkUse::Never => false,
        _ => true,
    };
    reject_when(
        reasons,
        policy.offline && networked,
        ReasonCode::OfflineViolation,
        owned("offline policy requires network_use=none"),
    );
    reject_when(
        reasons,
        policy.private && networked,
        ReasonCode::PrivacyViolation,
        owned("private policy requires network_use=none"),
    );
    assert(reasons_view(reasons@) =~= r0 + policy_rejections(*policy, *input));
}

/// Records the resource bounds a candidate breaks.
fn check_bounds(
    reasons: &mut Vec<PlannerReason>,
    policy: &PlannerPolicy,
    inventory: &HardwareInventory,
    input: &CandidateInput,
)
    ensures
        reasons_view(final(reasons)@) == reasons_view(old(reasons)@) + bound_rejections(
            *policy,
            *inventory,
            *input,
        ),
{
    let ghost r0 = reasons_view(reasons@);
    let candidate = &input.candidate;
    let allow = policy.allow_unknown_hard_estimates;
    check_limit(
        reasons,
        "RAM",
        bytes_raw(&candidate.resources.peak_ram),
        effective_ram_limit(policy, inventory),
        allow,
        ReasonCode::RamUnknown,
        ReasonCode::RamBudgetExceeded,
    );
    check_limit(
        reasons,
        "VRAM",
        bytes_raw(&candidate.resources.peak_vram),
        effective_vram_limit(policy, inventory, candidate),
        allow,
        ReasonCode::VramUnknown,
        ReasonCode::VramBudgetExceeded,
    );
    let cost = match candidate.resources.remote_cost {
        Estimate::Known(c) => Estimate::Known(c.get()),
        Estimate::Unknown => Estimate::Unknown,
    };
    let max_cost = match policy.max_remote_cost {
        Some(c) => Some(c.get()),
        None => None,
    };
    check_limit(
        reasons,
        "remote cost",
        cost,
        max_cost,
        allow,
        ReasonCode::CostUnknown,
        ReasonCode::CostBudgetExceeded,
    );
    let latency = match candidate.resources.latency {
        Estimate::Known(c) => Estimate::Known(c.get()),
        Estimate::Unknown => Estimate::Unknown,
    };
    let deadline = match policy.deadline {
        Some(c) => Some(c.get()),
        None => None,
    };
    check_limit(
        reasons,
        "latency",
        latency,
        deadline,
        allow,
        ReasonCode::LatencyUnknown,
        ReasonCode::DeadlineExceeded,
    );
    proof {
        reveal_strlit("RAM");
        reveal_strlit("VRAM");
        reveal_strlit("remote cost");
        reveal_strlit("latency");
    }
    assert(reasons_view(reasons@) =~= r0 + bound_rejections(*policy, *inventory, *input));
}

/// Applies every hard constraint to one candidate, recording each broken one, or the
/// acceptance when none is broken.
pub fn decide(policy: &PlannerPolicy, inventory: &HardwareInventory, input: CandidateInput) -> (d:
    CandidateDecision)
    ensures
        d.input == input,
        d.accepted == (rejections(*policy, *inventory, input).len() == 0),
        reasons_view(d.reasons@) == decision_reasons(*policy, *inventory, input),
{
    let mut reasons: Vec<PlannerReason> = Vec::new();
    check_placement(&mut reasons, policy, inventory, &input);
    check_policy(&mut reasons, policy, &input);
    check_bounds(&mut reasons, policy, inventory, &input);
    assert(reasons_view(reasons@) =~= rejections(*policy, *inventory, input));
    let accepted = reasons.len() == 0;
    if accepted {
        reject(
            &mut reasons,
            ReasonCode::Accepted,
            owned("candidate satisfies every hard constraint"),
        );
        assert(reasons_view(reasons@) =~= seq![
            (ReasonCode::Accepted, "candidate satisfies every hard constraint"@),
        ]);
    }
    CandidateDecision { input, accepted, reasons }
}

} // verus!

verus! {

/// The identity of a candidate: engine ID, backend and device text, compared in that
/// order.
pub open spec fn identity_key(c: CandidateInput) -> (Seq<char>, Seq<char>, Seq<char>) {
    (
        c.candidate.engine_id@,
        c.candidate.backend@,
        device_text(c.candidate.device@.0, c.candidate.device@.1),
    )
}

/// Decisions are the candidates reordered by `perm`: by identity, and in input order
/// among equal identities.
pub open spec fn stably_ranked(
    inputs: Seq<CandidateInput>,
    ds: Seq<CandidateDecision>,
    perm: Seq<int>,
) -> bool {
    &&& perm.len() == inputs.len()
    &&& ds.len() == inputs.len()
    &&& forall|i: int|
        0 <= i < ds.len() ==> 0 <= #[trigger] perm[i] < inputs.len() && ds[i].input
            == inputs[perm[i]]
    &&& forall|i: int, j: int| 0 <= i < j < ds.len() ==> #[trigger] perm[i] != #[trigger] perm[j]
    &&& forall|i: int, j: int|
        0 <= i < j < ds.len() ==> !key_before(
            identity_key((#[trigger] ds[j]).input),
            identity_key((#[trigger] ds[i]).input),
        )
    &&& forall|i: int, j: int|
        0 <= i < j < ds.len() && identity_key((#[trigger] ds[i]).input) == identity_key(
            (#[trigger] ds[j]).input,
        ) ==> perm[i] < perm[j]
}

/// The decision is what `decide` makes of its input under the policy and inventory.
pub open spec fn decided(policy: PlannerPolicy, inv: HardwareInventory, d: CandidateDecision) -> bool {
    &&& d.accepted == (rejections(policy, inv, d.input).len() == 0)
    &&& reasons_view(d.reasons@) == decision_reasons(policy, inv, d.input)
}

/// A known latency in milliseconds.
pub open spec fn known_millis(e: Estimate<Millis>) -> Option<u64> {
    match e {
        Estimate::Known(m) => Some(m@),
        Estimate::Unknown => None,
    }
}

/// A known remote cost in micro-dollars.
pub open spec fn known_cost(e: Estimate<MicroUsd>) -> Option<u64> {
    match e {
        Estimate::Known(m) => Some(m@),
        Estimate::Unknown => None,
    }
}

/// A known quality key.
pub open spec fn known_quality(e: Estimate<u64>) -> Option<u64> {
    match e {
        Estimate::Known(q) => Some(q),
        Estimate::Unknown => None,
    }
}

/// Preference between two optional values where lower is better and unknown is worst:
/// -1 prefers the first, 1 the second, 0 neither.
pub open spec fn low_first(a: Option<u64>, b: Option<u64>) -> int {
    match (a, b) {
        (Some(x), Some(y)) => if x < y {
            -1
        } else if x > y {
            1
        } else {
            0
        },
        (Some(_), None) => -1,
        (None, Some(_)) => 1,
        (None, None) => 0,
    }
}

/// Preference between two optional values where higher is better and unknown is worst.
pub open spec fn high_first(a: Option<u64>, b: Option<u64>) -> int {
    match (a, b) {
        (Some(x), Some(y)) => if x > y {
            -1
        } else if x < y {
            1
        } else {
            0
        },
        (Some(_), None) => -1,
        (None, Some(_)) => 1,
        (None, None) => 0,
    }
}

/// The first preference unless it is a tie, then the next.
pub open spec fn then_prefer(first: int, next: int) -> int {
    if first != 0 {
        first
    } else {
        next
    }
}

/// Preference by identity: the identity that comes first wins.
pub open spec fn identity_preference(a: CandidateInput, b: CandidateInput) -> int {
    if key_before(identity_key(a), identity_key(b)) {
        -1
    } else if key_before(identity_key(b), identity_key(a)) {
        1
    } else {
        0
    }
}

/// Preference of a profile: lowest known latency for fast, highest known quality for
/// accurate, lowest known cost for cheap, and otherwise quality, then latency, then cost;
/// identity breaks every tie.
pub open spec fn profile_preference(profile: Profile, a: CandidateInput, b: CandidateInput) -> int {
    let ra = a.candidate.resources;
    let rb = b.candidate.resources;
    let latency = low_first(known_millis(ra.latency), known_millis(rb.latency));
    let quality = high_first(known_quality(ra.quality), known_quality(rb.quality));
    let cost = low_first(known_cost(ra.remote_cost), known_cost(rb.remote_cost));
    let primary = match profile {
        Profile::Fast => latency,
        Profile::Accurate => quality,
        Profile::Cheap => cost,
        _ => then_prefer(quality, then_prefer(latency, cost)),
    };
    then_prefer(primary, identity_preference(a, b))
}

/// Preference of a placement: a preferred device wins over any other.
pub open spec fn device_preference(placement: PlacementPolicy, a: CandidateInput, b: CandidateInput) -> int {
    match placement {
        PlacementPolicy::Prefer(d) => {
            let la = a.candidate.device == d;
            let lb = b.candidate.device == d;
            if la && !lb {
                -1
            } else if !la && lb {
                1
            } else {
                0
            }
        },
        _ => 0,
    }
}

/// Preference between two candidates under a policy: placement first, then profile.
pub open spec fn preference(policy: PlannerPolicy, a: CandidateInput, b: CandidateInput) -> int {
    then_prefer(
        device_preference(policy.placement, a, b),
        profile_preference(policy.profile, a, b),
    )
}

/// Index of the selected decision among the first `n`: the first accepted decision
/// that no later accepted decision is strictly preferred to.
pub open spec fn preferred_index(policy: PlannerPolicy, ds: Seq<CandidateDecision>, n: nat) -> Option<
    int,
>
    decreases n,
{
    if n == 0 {
        None
    } else {
        let prev = preferred_index(policy, ds, (n - 1) as nat);
        if !ds[n - 1].accepted {
            prev
        } else {
            match prev {
                None => Some(n - 1),
                Some(b) => if preference(policy, ds[b].input, ds[n - 1].input) > 0 {
                    Some(n - 1)
                } else {
                    Some(b)
                },
            }
        }
    }
}

/// The planner never selects a rejected candidate, and selects one whenever any
/// candidate was accepted: no fallback is fabricated and none is withheld.
pub proof fn lemma_selection_is_accepted(policy: PlannerPolicy, ds: Seq<CandidateDecision>, n: nat)
    requires
        n <= ds.len(),
    ensures
        match preferred_index(policy, ds, n) {
            Some(b) => 0 <= b < n && ds[b].accepted,
            None => forall|i: int| 0 <= i < n ==> !(#[trigger] ds[i]).accepted,
        },
    decreases n,
{
    if n > 0 {
        lemma_selection_is_accepted(policy, ds, (n - 1) as nat);
    }
}

/// Remote cost `a` is no worse than `b`: both known with `a` no larger, or `b` unknown.
spec fn cost_no_worse(a: Estimate<MicroUsd>, b: Estimate<MicroUsd>) -> bool {
    match (a, b) {
        (Estimate::Known(x), Estimate::Known(y)) => x@ <= y@,
        (_, Estimate::Unknown) => true,
        (Estimate::Unknown, Estimate::Known(_)) => false,
    }
}

/// The running selection among the first `n` decisions costs no more than any accepted one.
proof fn lemma_cheap_prefix(policy: PlannerPolicy, ds: Seq<CandidateDecision>, n: nat)
    requires
        n <= ds.len(),
        policy.profile == Profile::Cheap,
        !(policy.placement is Prefer),
    ensures
        preferred_index(policy, ds, n) matches Some(b) ==> forall|k: int|
            0 <= k < n && (#[trigger] ds[k]).accepted ==> cost_no_worse(
                ds[b].input.candidate.resources.remote_cost,
                ds[k].input.candidate.resources.remote_cost,
            ),
    decreases n,
{
    if n > 0 {
        lemma_cheap_prefix(policy, ds, (n - 1) as nat);
        lemma_selection_is_accepted(policy, ds, (n - 1) as nat);
        let prev = preferred_index(policy, ds, (n - 1) as nat);
        if ds[n - 1].accepted {
            match prev {
                None => {},
                Some(b) => {
                    let pref = preference(policy, ds[b].input, ds[n - 1].input);
                    assert(device_preference(policy.placement, ds[b].input, ds[n - 1].input) == 0);
                    if pref > 0 {
                        assert forall|k: int|
                            0 <= k < n && (#[trigger] ds[k]).accepted implies cost_no_worse(
                            ds[n - 1].input.candidate.resources.remote_cost,
                            ds[k].input.candidate.resources.remote_cost,
                        ) by {
                            if k < n - 1 {
                                assert(cost_no_worse(
                                    ds[b].input.candidate.resources.remote_cost,
                                    ds[k].input.candidate.resources.remote_cost,
                                ));
                            }
                        }
                    }
                },
            }
        }
    }
}

/// Under the cheap profile without a preferred device, the planner selects a candidate
/// whose remote cost is known and no larger than the known remote cost of every accepted
/// candidate.
pub proof fn lemma_cheap_selects_lowest_cost(policy: PlannerPolicy, ds: Seq<CandidateDecision>)
    requires
        policy.profile == Profile::Cheap,
        !(policy.placement is Prefer),
    ensures
        preferred_index(policy, ds, ds.len()) matches Some(b) ==> forall|k: int|
            0 <= k < ds.len() && (#[trigger] ds[k]).accepted && ds[k].input.candidate.resources.remote_cost
                is Known ==> ({
                let ck = ds[k].input.candidate.resources.remote_cost->Known_0;
                &&& ds[b].input.candidate.resources.remote_cost is Known
                &&& ds[b].input.candidate.resources.remote_cost->Known_0@ <= ck@
            }),
{
    lemma_cheap_prefix(policy, ds, ds.len());
}

/// Latency `a` is no worse than `b`: both known with `a` no larger, or `b` unknown.
spec fn latency_no_worse(a: Estimate<Millis>, b: Estimate<Millis>) -> bool {
    match (a, b) {
        (Estimate::Known(x), Estimate::Known(y)) => x@ <= y@,
        (_, Estimate::Unknown) => true,
        (Estimate::Unknown, Estimate::Known(_)) => false,
    }
}

/// Quality `a` is no worse than `b`: both known with `a` no smaller, or `b` unknown.
spec fn quality_no_worse(a: Estimate<u64>, b: Estimate<u64>) -> bool {
    match (a, b) {
        (Estimate::Known(x), Estimate::Known(y)) => x >= y,
        (_, Estimate::Unknown) => true,
        (Estimate::Unknown, Estimate::Known(_)) => false,
    }
}

/// The running selection among the first `n` decisions is no slower (fast profile) or of
/// no lower quality (accurate profile) than any accepted one.
proof fn lemma_fast_accurate_prefix(policy: PlannerPolicy, ds: Seq<CandidateDecision>, n: nat)
    requires
        n <= ds.len(),
        policy.profile == Profile::Fast || policy.profile == Profile::Accurate,
        !(policy.placement is Prefer),
    ensures
        preferred_index(policy, ds, n) matches Some(b) ==> forall|k: int|
            0 <= k < n && (#[trigger] ds[k]).accepted ==> if policy.profile == Profile::Fast {
                latency_no_worse(ds[b].input.candidate.resources.latency, ds[k].input.candidate.resources.latency)
            } else {
                quality_no_worse(ds[b].input.candidate.resources.quality, ds[k].input.candidate.resources.quality)
            },
    decreases n,
{
    if n > 0 {
        lemma_fast_accurate_prefix(policy, ds, (n - 1) as nat);
        lemma_selection_is_accepted(policy, ds, (n - 1) as nat);
        let prev = preferred_index(policy, ds, (n - 1) as nat);
        if ds[n - 1].accepted {
            match prev {
                None => {},
                Some(b) => {
                    let pref = preference(policy, ds[b].input, ds[n - 1].input);
                    assert(device_preference(policy.placement, ds[b].input, ds[n - 1].input) == 0);
                    if pref > 0 {
                        assert forall|k: int| 0 <= k < n && (#[trigger] ds[k]).accepted implies if policy.profile
                            == Profile::Fast {
                            latency_no_worse(
                                ds[n - 1].input.candidate.resources.latency,
                                ds[k].input.candidate.resources.latency,
                            )
                        } else {
                            quality_no_worse(
                                ds[n - 1].input.candidate.resources.quality,
                                ds[k].input.candidate.resources.quality,
                            )
                        } by {
                            if k < n - 1 {
                                assert(ds[k] == ds[k]);
                            }
                        }
                    }
                },
            }
        }
    }
}

/// Under the fast profile without a preferred device, the planner selects a candidate
/// whose latency is known and no larger than the known latency of every accepted
/// candidate; under the accurate profile, one whose quality is known and no lower than the
/// known quality of every accepted candidate.
pub proof fn lemma_fast_and_accurate_selection(policy: PlannerPolicy, ds: Seq<CandidateDecision>)
    requires
        !(policy.placement is Prefer),
    ensures
        policy.profile == Profile::Fast ==> (preferred_index(policy, ds, ds.len()) matches Some(b) ==> forall|k: int|
            0 <= k < ds.len() && (#[trigger] ds[k]).accepted && ds[k].input.candidate.resources.latency
                is Known ==> ({
                &&& ds[b].input.candidate.resources.latency is Known
                &&& ds[b].input.candidate.resources.latency->Known_0@
                    <= ds[k].input.candidate.resources.latency->Known_0@
            })),
        policy.profile == Profile::Accurate ==> (preferred_index(policy, ds, ds.len()) matches Some(b) ==> forall|k: int|
            0 <= k < ds.len() && (#[trigger] ds[k]).accepted && ds[k].input.candidate.resources.quality
                is Known ==> ({
                &&& ds[b].input.candidate.resources.quality is Known
                &&& ds[b].input.candidate.resources.quality->Known_0
                    >= ds[k].input.candidate.resources.quality->Known_0
            })),
{
    if policy.profile == Profile::Fast || policy.profile == Profile::Accurate {
        lemma_fast_accurate_prefix(policy, ds, ds.len());
    }
}

/// Complete candidate audit and selected Pareto preference, if any.
#[derive(Debug, Clone, PartialEq, Eq)]
pub struct PlanningReport {
    /// Policy applied to every candidate.
    pub policy: PlannerPolicy,
    /// Candidate decisions in stable input-independent order.
    pub decisions: Vec<CandidateDecision>,
    /// Selected accepted candidate; absent when every candidate was rejected.
    pub selected: Option<EngineCandidate>,
}

/// The identity key of a candidate.
fn identity_of(c: &CandidateInput) -> (k: TextKey)
    ensures
        key_view(k) == identity_key(*c),
{
    let device = c.candidate.device.to_string();
    (
        chars_of(c.candidate.engine_id.as_str()),
        chars_of(c.candidate.backend.as_str()),
        chars_of(device.as_str()),
    )
}

/// Computes `low_first`.
fn low_first_of(a: Option<u64>, b: Option<u64>) -> (r: i8)
    ensures
        r == low_first(a, b),
{
    match (a, b) {
        (Some(x), Some(y)) => if x < y {
            -1
        } else if x > y {
            1
        } else {
            0
        },
        (Some(_), None) => -1,
        (None, Some(_)) => 1,
        (None, None) => 0,
    }
}

/// Computes `high_first`.
fn high_first_of(a: Option<u64>, b: Option<u64>) -> (r: i8)
    ensures
        r == high_first(a, b),
{
    match (a, b) {
        (Some(x), Some(y)) => if x > y {
            -1
        } else if x < y {
            1
        } else {
            0
        },
        (Some(_), None) => -1,
        (None, Some(_)) => 1,
        (None, None) => 0,
    }
}

/// A known latency.
fn millis_of(e: &Estimate<Millis>) -> (r: Option<u64>)
    ensures
        r == known_millis(*e),
{
    match e {
        Estimate::Known(m) => Some(m.get()),
        Estimate::Unknown => None,
    }
}

/// A known cost.
fn cost_of(e: &Estimate<MicroUsd>) -> (r: Option<u64>)
    ensures
        r == known_cost(*e),
{
    match e {
        Estimate::Known(m) => Some(m.get()),
        Estimate::Unknown => None,
    }
}

/// A known quality key.
fn quality_of(e: &Estimate<u64>) -> (r: Option<u64>)
    ensures
        r == known_quality(*e),
{
    match e {
        Estimate::Known(q) => Some(*q),
        Estimate::Unknown => None,
    }
}

/// Computes `preference` for two candidates whose identity keys are given.
fn preference_of(
    policy: &PlannerPolicy,
    a: &CandidateInput,
    ka: &TextKey,
    b: &CandidateInput,
    kb: &TextKey,
) -> (r: i8)
    requires
        key_view(*ka) == identity_key(*a),
        key_view(*kb) == identity_key(*b),
    ensures
        r == preference(*policy, *a, *b),
{
    let device = match &policy.placement {
        PlacementPolicy::Prefer(d) => {
            let la = a.candidate.device == *d;
            let lb = b.candidate.device == *d;
            if la && !lb {
                -1i8
            } else if !la && lb {
                1i8
            } else {
                0i8
            }
        },
        _ => 0i8,
    };
    if device != 0 {
        return device;
    }
    let ra = &a.candidate.resources;
    let rb = &b.candidate.resources;
    let latency = low_first_of(millis_of(&ra.latency), millis_of(&rb.latency));
    let quality = high_first_of(quality_of(&ra.quality), quality_of(&rb.quality));
    let cost = low_first_of(cost_of(&ra.remote_cost), cost_of(&rb.remote_cost));
    let primary = match policy.profile {
        Profile::Fast => latency,
        Profile::Accurate => quality,
        Profile::Cheap => cost,
        _ => if quality != 0 {
            quality
        } else if latency != 0 {
            latency
        } else {
            cost
        },
    };
    if primary != 0 {
        return primary;
    }
    if key_precedes(ka, kb) {
        -1
    } else if key_precedes(kb, ka) {
        1
    } else {
        0
    }
}

/// A copy of a candidate equal to it.
pub(crate) fn candidate_copy(c: &EngineCandidate) -> (r: EngineCandidate)
    ensures
        r == *c,
{
    let source = match &c.resources.source {
        Estimate::Known(s) => Estimate::Known(
            EstimateSource { confidence: s.confidence, method: s.method.clone() },
        ),
        Estimate::Unknown => Estimate::Unknown,
    };
    EngineCandidate {
        engine_id: c.engine_id.clone(),
        backend: c.backend.clone(),
        device: c.device,
        resources: ResourceEstimate {
            peak_ram: c.resources.peak_ram,
            warm_ram: c.resources.warm_ram,
            peak_vram: c.resources.peak_vram,
            warm_vram: c.resources.warm_vram,
            latency: c.resources.latency,
            remote_cost: c.resources.remote_cost,
            quality: c.resources.quality,
            source,
        },
    }
}

/// Applies hard constraints to every candidate, orders the decisions by candidate
/// identity, and selects the accepted candidate the policy prefers: a preferred device
/// first, then the profile's measure, then identity.
pub fn plan(policy: PlannerPolicy, inventory: &HardwareInventory, candidates: Vec<CandidateInput>) -> (r:
    PlanningReport)
    ensures
        r.policy == policy,
        exists|perm: Seq<int>| stably_ranked(candidates@, r.decisions@, perm),
        forall|i: int|
            0 <= i < r.decisions@.len() ==> decided(policy, *inventory, #[trigger] r.decisions@[i]),
        r.selected == match preferred_index(policy, r.decisions@, r.decisions@.len()) {
            Some(b) => Some(r.decisions@[b].input.candidate),
            None => None,
        },
{
    let ghost inputs = candidates@;
    let n = candidates.len();
    let mut rest = candidates;
    let mut keyed: Vec<(TextKey, CandidateDecision)> = Vec::new();
    assert(inputs.skip(0) =~= inputs);
    let mut i: usize = 0;
    while i < n
        invariant
            n == inputs.len(),
            i <= n,
            rest@ == inputs.skip(i as int),
            keyed@.len() == i,
            forall|k: int|
                0 <= k < i ==> (#[trigger] keyed@[k]).1.input == inputs[k] && key_view(keyed@[k].0)
                    == identity_key(keyed@[k].1.input) && decided(policy, *inventory, keyed@[k].1),
        decreases n - i,
    {
        let input = rest.remove(0);
        assert(rest@ =~= inputs.skip(i + 1));
        let key = identity_of(&input);
        let decision = decide(&policy, inventory, input);
        keyed.push((key, decision));
        i = i + 1;
    }
    let ghost keyed_in = keyed@;
    let sorted = stable_sort_by_key(keyed);
    let ghost perm = choose|perm: Seq<int>| stably_sorted(keyed_in, sorted@, perm);
    let ghost sorted_view = sorted@;
    let mut sorted = sorted;
    let mut keys: Vec<TextKey> = Vec::new();
    let mut decisions: Vec<CandidateDecision> = Vec::new();
    assert(sorted_view.skip(0) =~= sorted_view);
    let mut j: usize = 0;
    while j < n
        invariant
            n == sorted_view.len(),
            j <= n,
            sorted@ == sorted_view.skip(j as int),
            keys@.len() == j,
            decisions@.len() == j,
            forall|k: int|
                0 <= k < j ==> (#[trigger] decisions@[k]) == sorted_view[k].1 && keys@[k]
                    == sorted_view[k].0,
        decreases n - j,
    {
        let (key, decision) = sorted.remove(0);
        assert(sorted@ =~= sorted_view.skip(j + 1));
        keys.push(key);
        decisions.push(decision);
        j = j + 1;
    }
    proof {
        assert(decisions@.len() == sorted_view.len());
        assert forall|k: int| 0 <= k < decisions@.len() implies key_view(#[trigger] keys@[k])
            == identity_key(decisions@[k].input) && decided(policy, *inventory, decisions@[k])
            && decisions@[k].input == inputs[perm[k]] by {
            assert(sorted_view[k] == keyed_in[perm[k]]);
        }
        assert forall|a: int, b: int| 0 <= a < b < decisions@.len() implies !key_before(
            identity_key((#[trigger] decisions@[b]).input),
            identity_key((#[trigger] decisions@[a]).input),
        ) by {
            assert(sorted_view[a] == keyed_in[perm[a]]);
            assert(sorted_view[b] == keyed_in[perm[b]]);
            assert(!key_before(key_view(sorted_view[b].0), key_view(sorted_view[a].0)));
        }
        assert forall|a: int, b: int|
            0 <= a < b < decisions@.len() && identity_key((#[trigger] decisions@[a]).input)
                == identity_key((#[trigger] decisions@[b]).input) implies perm[a] < perm[b] by {
            assert(sorted_view[a] == keyed_in[perm[a]]);
            assert(sorted_view[b] == keyed_in[perm[b]]);
        }
        assert(stably_ranked(inputs, decisions@, perm));
    }
    let mut best: Option<usize> = None;
    let mut k: usize = 0;
    while k < decisions.len()
        invariant
            k <= decisions@.len(),
            keys@.len() == decisions@.len(),
            forall|q: int|
                0 <= q < decisions@.len() ==> key_view(#[trigger] keys@[q]) == identity_key(
                    decisions@[q].input,
                ),
            match best {
                Some(b) => b < k && preferred_index(policy, decisions@, k as nat) == Some(b as int),
                None => preferred_index(policy, decisions@, k as nat) is None,
            },
        decreases decisions@.len() - k,
    {
        if decisions[k].accepted {
            match best {
                None => {
                    best = Some(k);
                },
                Some(b) => {
                    if preference_of(
                        &policy,
                        &decisions[b].input,
                        &keys[b],
                        &decisions[k].input,
                        &keys[k],
                    ) > 0 {
                        best = Some(k);
                    }
                },
            }
        }
        k = k + 1;
    }
    let selected = match best {
        Some(b) => Some(candidate_copy(&decisions[b].input.candidate)),
        None => None,
    };
    PlanningReport { policy, decisions, selected }
}

} // verus!
