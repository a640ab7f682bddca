//! Leakage-resistant routing records, deterministic baselines, and a guarded stump model.
//!
//! Real-valued fields (probabilities, qualities, latencies, objectives) are carried as
//! the bits of their IEEE 754 binary64 encoding; every comparison the routing rules make
//! on them is stated and decided on those bits exactly as the floating-point comparison
//! decides it.

use std::collections::BTreeSet;

use vstd::prelude::*;

use crate::canonical::{owned, push_str, Profile};
use crate::cli::{debug_quoted, debug_text};
use crate::digest::Sha256Digest;
use crate::planner::{set_has, text_set_contains};
use crate::ranking::text_before;
use crate::research::{is_normalized_relative, normalized_relative, role_is};

verus! {

/// Routing dataset contract.
pub const DATASET_VERSION: &'static str = "ferrodoc-routing-dataset/1";

/// Features available before engine execution. Held-out truth is deliberately absent.
pub const FEATURE_SCHEMA_VERSION: &'static str = "ferrodoc-routing-features/1";

/// Learned model contract.
pub const MODEL_VERSION: &'static str = "ferrodoc-router-stump/1";

/// The sign bit of a binary64 encoding.
pub const SIGN_BIT: u64 = 0x8000_0000_0000_0000;

/// The encoding of positive infinity; larger unsigned magnitudes are NaN.
pub const POSITIVE_INFINITY_BITS: u64 = 0x7FF0_0000_0000_0000;

/// The encoding of 0.5.
pub const ONE_HALF_BITS: u64 = 0x3FE0_0000_0000_0000;

/// The encoding of 1.0.
pub const ONE_BITS: u64 = 0x3FF0_0000_0000_0000;

/// The encoded value is NaN.
pub open spec fn bits_nan(b: u64) -> bool {
    b % SIGN_BIT > POSITIVE_INFINITY_BITS
}

/// The encoded value is at least one half (NaN is not).
pub open spec fn bits_at_least_half(b: u64) -> bool {
    ONE_HALF_BITS <= b <= POSITIVE_INFINITY_BITS
}

/// The encoded value is finite and lies in zero through one (negative zero included).
pub open spec fn bits_unit_interval(b: u64) -> bool {
    b <= ONE_BITS || b == SIGN_BIT
}

/// The first encoded value is strictly less than the second, as `f64` compares them.
pub open spec fn bits_less(a: u64, b: u64) -> bool {
    let ma = a % SIGN_BIT;
    let mb = b % SIGN_BIT;
    let na = a >= SIGN_BIT;
    let nb = b >= SIGN_BIT;
    if bits_nan(a) || bits_nan(b) {
        false
    } else if ma == 0 && mb == 0 {
        false
    } else if !na && !nb {
        a < b
    } else if na && nb {
        ma > mb
    } else {
        na
    }
}

/// Decides `bits_less`.
pub fn f64_bits_less(a: u64, b: u64) -> (r: bool)
    ensures
        r == bits_less(a, b),
{
    let ma = a % SIGN_BIT;
    let mb = b % SIGN_BIT;
    let na = a >= SIGN_BIT;
    let nb = b >= SIGN_BIT;
    if ma > POSITIVE_INFINITY_BITS || mb > POSITIVE_INFINITY_BITS {
        false
    } else if ma == 0 && mb == 0 {
        false
    } else if !na && !nb {
        a < b
    } else if na && nb {
        ma > mb
    } else {
        na
    }
}

/// An observed feature or a visible reason it is unavailable.
#[derive(Debug, Clone, PartialEq, Eq)]
pub enum FeatureValue<T> {
    /// Value observed before routing.
    Observed {
        /// The value.
        value: T,
    },
    /// Value was unavailable; it must not be silently imputed.
    Missing {
        /// Why it is unavailable.
        reason: String,
    },
}

/// The observed value, if any.
pub open spec fn observed<T>(f: FeatureValue<T>) -> Option<T> {
    match f {
        FeatureValue::Observed { value } => Some(value),
        FeatureValue::Missing { .. } => None,
    }
}

impl<T: Copy> FeatureValue<T> {
    /// The observed value, if any.
    pub fn observed(&self) -> (r: Option<T>)
        ensures
            r == observed(*self),
    {
        match self {
            FeatureValue::Observed { value } => Some(*value),
            FeatureValue::Missing { .. } => None,
        }
    }
}

/// Stable pre-execution features. No truth or post-execution metric is admitted.
#[derive(Debug, Clone, PartialEq, Eq)]
pub struct RoutingFeatures {
    /// Number of pages.
    pub page_count: FeatureValue<u32>,
    /// Native text characters found by the probe.
    pub native_characters: FeatureValue<u64>,
    /// Fraction of page area covered by images, as binary64 bits.
    pub image_coverage: FeatureValue<u64>,
    /// Likelihood that pages are scanned, as binary64 bits.
    pub scanned_likelihood: FeatureValue<u64>,
}

/// Coarse semantic route selected before a concrete engine.
#[derive(Debug, Clone, Copy, PartialEq, Eq, PartialOrd, Ord, Structural)]
pub enum RouteClass {
    /// Native text extraction.
    Native,
    /// Optical character recognition.
    Ocr,
}

/// Corpus partition of a routing record.
#[derive(Debug, Clone, Copy, PartialEq, Eq, PartialOrd, Ord, Structural)]
pub enum Partition {
    /// Cases the model is trained on.
    Train,
    /// Cases held out for qualification.
    HeldOut,
}

/// Digest-bound file from which one routing observation was derived.
#[derive(Debug, Clone, PartialEq, Eq)]
pub struct ArtifactSource {
    /// Repository- or run-root-relative path.
    pub path: String,
    /// Exact bytes consumed.
    pub digest: Sha256Digest,
}

/// Historical candidate result copied from a benchmark case.
#[derive(Debug, Clone, PartialEq, Eq)]
pub struct RouteOutcome {
    /// Engine measured.
    pub engine_id: String,
    /// Route the engine implements.
    pub route: RouteClass,
    /// The benchmark report the result was copied from.
    pub benchmark_report: ArtifactSource,
    /// Benchmark case.
    pub case_id: String,
    /// Measured quality, as binary64 bits.
    pub quality: u64,
    /// The engine failed on the case.
    pub failed: bool,
    /// Measured cold wall time in milliseconds, as binary64 bits.
    pub cold_wall_ms: Option<u64>,
}

/// One trace-derived training/evaluation example.
#[derive(Debug, Clone, PartialEq, Eq)]
pub struct RoutingRecord {
    /// Benchmark case.
    pub case_id: String,
    /// Digest of the document.
    pub document_digest: Sha256Digest,
    /// Related synthetic degradations share this identity and must share a partition.
    pub family_id: String,
    /// Corpus partition.
    pub partition: Partition,
    /// The conversion trace the features came from.
    pub conversion_trace: ArtifactSource,
    /// Pre-execution features.
    pub features: RoutingFeatures,
    /// Observed candidate outcomes.
    pub outcomes: Vec<RouteOutcome>,
}

/// Complete traceable routing dataset.
#[derive(Debug, Clone, PartialEq, Eq)]
pub struct RoutingDataset {
    /// Must be [`DATASET_VERSION`].
    pub dataset_version: String,
    /// Must be [`FEATURE_SCHEMA_VERSION`].
    pub feature_schema_version: String,
    /// Digest of the benchmark corpus.
    pub corpus_digest: Sha256Digest,
    /// Records in dataset order.
    pub records: Vec<RoutingRecord>,
}

/// Why routing data or a decision was refused.
#[derive(Debug, Clone, PartialEq, Eq)]
pub enum RouterError {
    /// A dataset, model or decision input breaks an integrity rule.
    Integrity(String),
}

/// What outcome `k` of record `r` breaks, given the outcomes before it.
pub open spec fn outcome_fault(r: RoutingRecord, k: int) -> Option<Seq<char>> {
    let o = r.outcomes@[k];
    if !normalized_relative(o.benchmark_report.path@) {
        Some("routing source path must be normalized and relative"@)
    } else if o.case_id@ != r.case_id@ || o.engine_id@.len() == 0 {
        Some("benchmark outcome identity differs from routing record"@)
    } else if !bits_unit_interval(o.quality) {
        Some("invalid outcome quality"@)
    } else if exists|j: int| 0 <= j < k && #[trigger] r.outcomes@[j].engine_id@ == o.engine_id@ {
        Some("duplicate engine outcome in case "@ + debug_text(r.case_id@))
    } else {
        None
    }
}

/// The first fault among the first `n` outcomes of a record.
pub open spec fn outcomes_fault(r: RoutingRecord, n: nat) -> Option<Seq<char>>
    decreases n,
{
    if n == 0 {
        None
    } else {
        match outcomes_fault(r, (n - 1) as nat) {
            Some(m) => Some(m),
            None => outcome_fault(r, n - 1),
        }
    }
}

/// A probability feature that is observed must lie in zero through one.
pub open spec fn probability_fault(f: FeatureValue<u64>) -> bool {
    match f {
        FeatureValue::Observed { value } => !bits_unit_interval(value),
        FeatureValue::Missing { .. } => false,
    }
}

/// What record `i` breaks, given the records before it.
pub open spec fn record_fault(rs: Seq<RoutingRecord>, i: int) -> Option<Seq<char>> {
    let r = rs[i];
    if r.case_id@.len() == 0 || r.family_id@.len() == 0 {
        Some("empty case or family identity"@)
    } else if exists|j: int| 0 <= j < i && #[trigger] rs[j].case_id@ == r.case_id@ {
        Some("duplicate routing case "@ + debug_text(r.case_id@))
    } else if exists|j: int|
        0 <= j < i && #[trigger] rs[j].family_id@ == r.family_id@ && rs[j].partition
            != r.partition {
        Some("family "@ + debug_text(r.family_id@) + " crosses corpus partitions"@)
    } else if !normalized_relative(r.conversion_trace.path@) {
        Some("routing source path must be normalized and relative"@)
    } else if r.outcomes@.len() == 0 {
        Some("case "@ + debug_text(r.case_id@) + " has no observed candidate outcomes"@)
    } else if outcomes_fault(r, r.outcomes@.len()) is Some {
        outcomes_fault(r, r.outcomes@.len())
    } else if probability_fault(r.features.image_coverage) || probability_fault(
        r.features.scanned_likelihood,
    ) {
        Some("routing probability feature is outside zero through one"@)
    } else {
        None
    }
}

/// The first fault among the first `n` records.
pub open spec fn records_fault(rs: Seq<RoutingRecord>, n: nat) -> Option<Seq<char>>
    decreases n,
{
    if n == 0 {
        None
    } else {
        match records_fault(rs, (n - 1) as nat) {
            Some(m) => Some(m),
            None => record_fault(rs, n - 1),
        }
    }
}

/// The message of the first integrity rule a dataset breaks, if any.
pub open spec fn dataset_refusal(d: RoutingDataset) -> Option<Seq<char>> {
    if d.dataset_version@ != DATASET_VERSION@ || d.feature_schema_version@
        != FEATURE_SCHEMA_VERSION@ {
        Some("unsupported dataset or feature schema version"@)
    } else if d.records@.len() == 0 {
        Some("routing dataset is empty"@)
    } else {
        records_fault(d.records@, d.records@.len())
    }
}

/// Once a prefix of outcomes holds a fault, every longer prefix holds the same one.
proof fn lemma_outcomes_fault_sticks(r: RoutingRecord, i: nat, n: nat)
    requires
        i <= n,
        outcomes_fault(r, i) is Some,
    ensures
        outcomes_fault(r, n) == outcomes_fault(r, i),
    decreases n - i,
{
    if i < n {
        lemma_outcomes_fault_sticks(r, i, (n - 1) as nat);
    }
}

/// Once a prefix of records holds a fault, every longer prefix holds the same one.
proof fn lemma_records_fault_sticks(rs: Seq<RoutingRecord>, i: nat, n: nat)
    requires
        i <= n,
        records_fault(rs, i) is Some,
    ensures
        records_fault(rs, n) == records_fault(rs, i),
    decreases n - i,
{
    if i < n {
        lemma_records_fault_sticks(rs, i, (n - 1) as nat);
    }
}

/// A prefix of records free of faults has no faulty record.
proof fn lemma_records_clean(rs: Seq<RoutingRecord>, n: nat, i: int)
    requires
        records_fault(rs, n) is None,
        0 <= i < n,
    ensures
        record_fault(rs, i) is None,
    decreases n,
{
    if i < n - 1 {
        lemma_records_clean(rs, (n - 1) as nat, i);
    }
}

/// The integrity error carrying `message`.
fn integrity(message: String) -> (e: RouterError)
    ensures
        e == RouterError::Integrity(message),
{
    RouterError::Integrity(message)
}

/// `prefix` followed by the quoted form of `value`.
fn quoted_after(prefix: &str, value: &str) -> (s: String)
    ensures
        s@ == prefix@ + debug_text(value@),
{
    let mut s = owned(prefix);
    let quoted = debug_quoted(value);
    push_str(&mut s, quoted.as_str());
    s
}

/// `prefix` followed by the quoted form of `value` and then `suffix`.
fn quoted_message(prefix: &str, value: &str, suffix: &str) -> (s: String)
    ensures
        s@ == prefix@ + debug_text(value@) + suffix@,
{
    let mut s = owned(prefix);
    let quoted = debug_quoted(value);
    push_str(&mut s, quoted.as_str());
    push_str(&mut s, suffix);
    s
}

/// True when an observed probability lies outside zero through one.
fn probability_out_of_range(f: &FeatureValue<u64>) -> (r: bool)
    ensures
        r == probability_fault(*f),
{
    match f {
        FeatureValue::Observed { value } => !(*value <= ONE_BITS || *value == SIGN_BIT),
        FeatureValue::Missing { .. } => false,
    }
}

/// The first fault of one record's outcomes.
fn check_outcomes(r: &RoutingRecord) -> (res: Result<(), String>)
    ensures
        res is Ok <==> outcomes_fault(*r, r.outcomes@.len()) is None,
        res matches Err(m) ==> Some(m@) == outcomes_fault(*r, r.outcomes@.len()),
{
    let os = &r.outcomes;
    let mut k: usize = 0;
    while k < os.len()
        invariant
            os == &r.outcomes,
            k <= os@.len(),
            outcomes_fault(*r, k as nat) is None,
        decreases os@.len() - k,
    {
        let o = &os[k];
        let path_ok = is_normalized_relative(o.benchmark_report.path.as_str());
        let identity_ok = o.case_id == r.case_id && !o.engine_id.as_str().is_empty();
        let quality_ok = o.quality <= ONE_BITS || o.quality == SIGN_BIT;
        let mut seen = false;
        let mut j: usize = 0;
        while j < k
            invariant
                k < os@.len(),
                j <= k,
                !seen ==> forall|q: int| 0 <= q < j ==> #[trigger] os@[q].engine_id@ != os@[k as int].engine_id@,
                seen ==> exists|q: int| 0 <= q < k && #[trigger] os@[q].engine_id@ == os@[k as int].engine_id@,
            decreases k - j,
        {
            if os[j].engine_id == os[k].engine_id {
                seen = true;
            }
            j = j + 1;
        }
        if !path_ok || !identity_ok || !quality_ok || seen {
            proof {
                lemma_outcomes_fault_sticks(*r, (k + 1) as nat, os@.len());
            }
            if !path_ok {
                return Err(owned("routing source path must be normalized and relative"));
            }
            if !identity_ok {
                return Err(owned("benchmark outcome identity differs from routing record"));
            }
            if !quality_ok {
                return Err(owned("invalid outcome quality"));
            }
            return Err(quoted_after("duplicate engine outcome in case ", r.case_id.as_str()));
        }
        k = k + 1;
    }
    Ok(())
}

/// The first fault of record `i`, given the records before it.
fn check_record(rs: &Vec<RoutingRecord>, i: usize) -> (res: Result<(), String>)
    requires
        i < rs@.len(),
    ensures
        res is Ok <==> record_fault(rs@, i as int) is None,
        res matches Err(m) ==> Some(m@) == record_fault(rs@, i as int),
{
    let r = &rs[i];
    if r.case_id.as_str().is_empty() || r.family_id.as_str().is_empty() {
        return Err(owned("empty case or family identity"));
    }
    let mut j: usize = 0;
    while j < i
        invariant
            i < rs@.len(),
            j <= i,
            rs@[i as int].case_id@.len() > 0 && rs@[i as int].family_id@.len() > 0,
            forall|q: int| 0 <= q < j ==> #[trigger] rs@[q].case_id@ != rs@[i as int].case_id@,
        decreases i - j,
    {
        if rs[j].case_id == rs[i].case_id {
            return Err(quoted_after("duplicate routing case ", rs[i].case_id.as_str()));
        }
        j = j + 1;
    }
    let mut j: usize = 0;
    while j < i
        invariant
            i < rs@.len(),
            j <= i,
            rs@[i as int].case_id@.len() > 0 && rs@[i as int].family_id@.len() > 0,
            forall|q: int| 0 <= q < i ==> #[trigger] rs@[q].case_id@ != rs@[i as int].case_id@,
            forall|q: int|
                0 <= q < j ==> !(#[trigger] rs@[q].family_id@ == rs@[i as int].family_id@
                    && rs@[q].partition != rs@[i as int].partition),
        decreases i - j,
    {
        if rs[j].family_id == rs[i].family_id && rs[j].partition != rs[i].partition {
            return Err(
                quoted_message("family ", rs[i].family_id.as_str(), " crosses corpus partitions"),
            );
        }
        j = j + 1;
    }
    if !is_normalized_relative(r.conversion_trace.path.as_str()) {
        return Err(owned("routing source path must be normalized and relative"));
    }
    if r.outcomes.len() == 0 {
        return Err(
            quoted_message("case ", r.case_id.as_str(), " has no observed candidate outcomes"),
        );
    }
    match check_outcomes(r) {
        Err(m) => {
            return Err(m);
        },
        Ok(()) => {},
    }
    if probability_out_of_range(&r.features.image_coverage) || probability_out_of_range(
        &r.features.scanned_likelihood,
    ) {
        return Err(owned("routing probability feature is outside zero through one"));
    }
    Ok(())
}

impl RoutingDataset {
    /// Validates schema, partitions, examples, and leakage barriers: the versions, a
    /// nonempty record list, then per record in order nonempty identities, a unique case,
    /// a family that stays in one partition, a normalized trace path, at least one
    /// outcome, outcomes with normalized paths, the record's case, a named engine, a
    /// quality in zero through one and no repeated engine, and probability features in
    /// zero through one.
    pub fn validate(&self) -> (r: Result<(), RouterError>)
        ensures
            r is Ok <==> dataset_refusal(*self) is None,
            r matches Err(RouterError::Integrity(m)) ==> Some(m@) == dataset_refusal(*self),
    {
        if !role_is(&self.dataset_version, DATASET_VERSION) || !role_is(
            &self.feature_schema_version,
            FEATURE_SCHEMA_VERSION,
        ) {
            return Err(integrity(owned("unsupported dataset or feature schema version")));
        }
        if self.records.len() == 0 {
            return Err(integrity(owned("routing dataset is empty")));
        }
        let rs = &self.records;
        let mut i: usize = 0;
        while i < rs.len()
            invariant
                rs == &self.records,
                i <= rs@.len(),
                records_fault(rs@, i as nat) is None,
                dataset_refusal(*self) == records_fault(rs@, rs@.len()),
            decreases rs@.len() - i,
        {
            match check_record(rs, i) {
                Err(m) => {
                    proof {
                        lemma_records_fault_sticks(rs@, (i + 1) as nat, rs@.len());
                    }
                    return Err(integrity(m));
                },
                Ok(()) => {},
            }
            i = i + 1;
        }
        Ok(())
    }
}

/// A valid dataset keeps every family inside one partition and every case unique.
pub proof fn lemma_valid_dataset_separates_families(d: RoutingDataset)
    requires
        dataset_refusal(d) is None,
    ensures
        forall|i: int, j: int|
            0 <= i < j < d.records@.len() && (#[trigger] d.records@[i]).family_id@ == (
            #[trigger] d.records@[j]).family_id@ ==> d.records@[i].partition
                == d.records@[j].partition,
        forall|i: int, j: int|
            0 <= i < j < d.records@.len() ==> (#[trigger] d.records@[i]).case_id@ != (
            #[trigger] d.records@[j]).case_id@,
{
    let rs = d.records@;
    assert forall|i: int, j: int|
        0 <= i < j < rs.len() && (#[trigger] rs[i]).family_id@ == (#[trigger] rs[j]).family_id@ implies rs[i].partition
            == rs[j].partition by {
        lemma_records_clean(rs, rs.len(), j);
    }
    assert forall|i: int, j: int| 0 <= i < j < rs.len() implies (#[trigger] rs[i]).case_id@
        != (#[trigger] rs[j]).case_id@ by {
        lemma_records_clean(rs, rs.len(), j);
    }
}

/// Deterministic non-learned policy.
#[derive(Debug, Clone, Copy, PartialEq, Eq)]
pub enum BaselinePolicy {
    /// Always route natively.
    AlwaysNative,
    /// Native when at least this many native characters were observed.
    NativeThreshold {
        /// Threshold.
        minimum_characters: u64,
    },
    /// Native when pages do not look scanned and enough characters were observed.
    PageTypeRules {
        /// Threshold.
        minimum_characters: u64,
    },
    /// A fixed rule per profile.
    ProfileSpecific {
        /// The profile.
        profile: Profile,
    },
}

/// Native when the observed character count satisfies `keep`, OCR otherwise or when
/// the count is missing.
pub open spec fn native_when(characters: Option<u64>, at_least: u64) -> RouteClass {
    match characters {
        Some(c) => if c >= at_least {
            RouteClass::Native
        } else {
            RouteClass::Ocr
        },
        None => RouteClass::Ocr,
    }
}

/// The route a baseline policy picks.
pub open spec fn baseline_route(p: BaselinePolicy, f: RoutingFeatures) -> RouteClass {
    let characters = observed(f.native_characters);
    match p {
        BaselinePolicy::AlwaysNative => RouteClass::Native,
        BaselinePolicy::NativeThreshold { minimum_characters } => native_when(
            characters,
            minimum_characters,
        ),
        BaselinePolicy::PageTypeRules { minimum_characters } => {
            let looks_scanned = match observed(f.scanned_likelihood) {
                Some(v) => bits_at_least_half(v),
                None => false,
            };
            if !looks_scanned && native_when(characters, minimum_characters) == RouteClass::Native {
                RouteClass::Native
            } else {
                RouteClass::Ocr
            }
        },
        BaselinePolicy::ProfileSpecific { profile } => match profile {
            Profile::Accurate => match observed(f.image_coverage) {
                Some(v) => if bits_at_least_half(v) {
                    RouteClass::Ocr
                } else {
                    RouteClass::Native
                },
                None => RouteClass::Native,
            },
            Profile::Fast | Profile::Cheap | Profile::Cpu | Profile::LowVram => native_when(
                characters,
                1,
            ),
            Profile::Balanced | Profile::Offline | Profile::Private => native_when(characters, 32),
        },
    }
}

/// The native-threshold policy routes natively exactly when a character count was
/// observed and it reaches the configured minimum; a missing count routes to OCR.
pub proof fn lemma_native_threshold_routes_by_count(minimum_characters: u64, f: RoutingFeatures)
    ensures
        f.native_characters matches FeatureValue::Observed { value: c } ==> ((baseline_route(
            BaselinePolicy::NativeThreshold { minimum_characters },
            f,
        ) == RouteClass::Native) <==> c >= minimum_characters),
        f.native_characters is Missing ==> baseline_route(
            BaselinePolicy::NativeThreshold { minimum_characters },
            f,
        ) == RouteClass::Ocr,
{
}

/// The page-type rules route natively exactly when the page does not look scanned (no
/// observed scanned likelihood of one half or more) and an observed character count reaches
/// the minimum.
pub proof fn lemma_page_type_rules_route(minimum_characters: u64, f: RoutingFeatures)
    ensures
        (baseline_route(BaselinePolicy::PageTypeRules { minimum_characters }, f) == RouteClass::Native)
            <==> ({
            &&& !(f.scanned_likelihood matches FeatureValue::Observed { value: v } && 0x3FE0_0000_0000_0000u64
                <= v <= 0x7FF0_0000_0000_0000u64)
            &&& f.native_characters matches FeatureValue::Observed { value: c }
            &&& c >= minimum_characters
        }),
{
}

/// The fixed profile rules: the fast, cheap, CPU and low-VRAM profiles route natively when
/// any character was observed; the balanced, offline and private profiles when at least
/// thirty-two were; a missing count routes to OCR under all of them.
pub proof fn lemma_profile_rules_route(profile: Profile, f: RoutingFeatures)
    requires
        profile != Profile::Accurate,
    ensures
        (baseline_route(BaselinePolicy::ProfileSpecific { profile }, f) == RouteClass::Native) <==> ({
            &&& f.native_characters matches FeatureValue::Observed { value: c }
            &&& c >= if profile == Profile::Fast || profile == Profile::Cheap || profile == Profile::Cpu
                || profile == Profile::LowVram {
                1u64
            } else {
                32u64
            }
        }),
{
}

/// The always-native policy routes every page natively.
pub proof fn lemma_always_native(f: RoutingFeatures)
    ensures
        baseline_route(BaselinePolicy::AlwaysNative, f) == RouteClass::Native,
{
}

/// Raising the minimum never turns an OCR route native: the threshold policy is monotone.
pub proof fn lemma_native_threshold_monotone(low: u64, high: u64, f: RoutingFeatures)
    requires
        low <= high,
    ensures
        baseline_route(BaselinePolicy::NativeThreshold { minimum_characters: high }, f)
            == RouteClass::Native ==> baseline_route(
            BaselinePolicy::NativeThreshold { minimum_characters: low },
            f,
        ) == RouteClass::Native,
{
}

/// Native when the observed count reaches `at_least`.
fn native_when_count(characters: Option<u64>, at_least: u64) -> (r: RouteClass)
    ensures
        r == native_when(characters, at_least),
{
    match characters {
        Some(c) => if c >= at_least {
            RouteClass::Native
        } else {
            RouteClass::Ocr
        },
        None => RouteClass::Ocr,
    }
}

impl BaselinePolicy {
    /// Routes a document by its features; a missing count never routes natively, except
    /// for the always-native policy and the accurate profile, which looks only at image
    /// coverage.
    pub fn route(&self, features: &RoutingFeatures) -> (r: RouteClass)
        ensures
            r == baseline_route(*self, *features),
    {
        let characters = features.native_characters.observed();
        match self {
            BaselinePolicy::AlwaysNative => RouteClass::Native,
            BaselinePolicy::NativeThreshold { minimum_characters } => native_when_count(
                characters,
                *minimum_characters,
            ),
            BaselinePolicy::PageTypeRules { minimum_characters } => {
                let looks_scanned = match features.scanned_likelihood.observed() {
                    Some(v) => ONE_HALF_BITS <= v && v <= POSITIVE_INFINITY_BITS,
                    None => false,
                };
                if !looks_scanned && native_when_count(characters, *minimum_characters)
                    == RouteClass::Native {
                    RouteClass::Native
                } else {
                    RouteClass::Ocr
                }
            },
            BaselinePolicy::ProfileSpecific { profile } => match profile {
                Profile::Accurate => match features.image_coverage.observed() {
                    Some(v) => if ONE_HALF_BITS <= v && v <= POSITIVE_INFINITY_BITS {
                        RouteClass::Ocr
                    } else {
                        RouteClass::Native
                    },
                    None => RouteClass::Native,
                },
                Profile::Fast | Profile::Cheap | Profile::Cpu | Profile::LowVram => {
                    native_when_count(characters, 1)
                },
                Profile::Balanced | Profile::Offline | Profile::Private => native_when_count(
                    characters,
                    32,
                ),
            },
        }
    }
}

} // verus!

verus! {

/// Separate quality, latency and failure measures of a router over one partition.
#[derive(Debug, Clone, PartialEq, Eq)]
pub struct RouterEvaluation {
    /// Partition evaluated.
    pub partition: Partition,
    /// Cases evaluated, sorted.
    pub case_ids: Vec<String>,
    /// Mean quality, as binary64 bits.
    pub mean_quality: u64,
    /// Mean latency in milliseconds when every case was timed, as binary64 bits.
    pub mean_latency_ms: Option<u64>,
    /// Failure rate, as binary64 bits.
    pub failure_rate: u64,
    /// Scalarized objective, as binary64 bits.
    pub objective: u64,
}

/// Qualification state prevents an unproven model from being used.
#[derive(Debug, Clone, PartialEq, Eq)]
pub enum Qualification {
    /// The model beat the baselines on held-out cases.
    Qualified,
    /// The model may not be used.
    Rejected {
        /// Why.
        reason: String,
    },
}

/// Small, auditable learned router.
#[derive(Debug, Clone, PartialEq, Eq)]
pub struct RouterModel {
    /// Must be [`MODEL_VERSION`].
    pub model_version: String,
    /// Must be [`FEATURE_SCHEMA_VERSION`].
    pub feature_schema_version: String,
    /// Digest of the training dataset.
    pub dataset_digest: Sha256Digest,
    /// Character-count threshold of the stump.
    pub threshold: u64,
    /// Whether counts at or above the threshold route natively.
    pub native_if_at_least: bool,
    /// Engine behind the native route.
    pub native_engine: String,
    /// Engine behind the OCR route.
    pub ocr_engine: String,
    /// Share of training cases with an observed count, as binary64 bits.
    pub confidence: u64,
    /// Declared confidence floor, as binary64 bits.
    pub minimum_confidence: u64,
    /// Qualification verdict.
    pub qualification: Qualification,
    /// Evaluation on the training partition.
    pub training: RouterEvaluation,
    /// Evaluation on the held-out partition.
    pub held_out: RouterEvaluation,
    /// Held-out evaluation of each deterministic baseline.
    pub baselines: Vec<(BaselinePolicy, RouterEvaluation)>,
}

/// Why a concrete decision was made.
#[derive(Debug, Clone, Copy, PartialEq, Eq, Structural)]
pub enum DecisionSource {
    /// A qualified model's recommendation passed hard policy.
    QualifiedModel,
    /// The deterministic fallback order decided.
    DeterministicFallback,
}

/// Planner-safe route decision.
#[derive(Debug, Clone, PartialEq, Eq)]
pub struct RouteDecision {
    /// Engine to run.
    pub engine_id: String,
    /// Why it was chosen.
    pub source: DecisionSource,
    /// Explanation.
    pub reason: String,
}

/// The stump's route: native when the count is missing, else native exactly when
/// "count at or above threshold" equals `native_if_at_least`.
pub open spec fn stump(f: RoutingFeatures, threshold: u64, native_if_at_least: bool) -> RouteClass {
    match observed(f.native_characters) {
        None => RouteClass::Native,
        Some(c) => if (c >= threshold) == native_if_at_least {
            RouteClass::Native
        } else {
            RouteClass::Ocr
        },
    }
}

/// Routes by the decision stump.
pub fn stump_route(features: &RoutingFeatures, threshold: u64, native_if_at_least: bool) -> (r:
    RouteClass)
    ensures
        r == stump(*features, threshold, native_if_at_least),
{
    match features.native_characters.observed() {
        None => RouteClass::Native,
        Some(c) => if (c >= threshold) == native_if_at_least {
            RouteClass::Native
        } else {
            RouteClass::Ocr
        },
    }
}

/// A model may be consulted: current contract, qualified, confident enough, and the
/// feature it splits on observed.
pub open spec fn model_usable(m: RouterModel, f: RoutingFeatures) -> bool {
    &&& m.model_version@ == MODEL_VERSION@
    &&& m.feature_schema_version@ == FEATURE_SCHEMA_VERSION@
    &&& m.qualification is Qualified
    &&& !bits_less(m.confidence, m.minimum_confidence)
    &&& observed(f.native_characters) is Some
}

/// The engine the model recommends.
pub open spec fn recommended(m: RouterModel, f: RoutingFeatures) -> String {
    match stump(f, m.threshold, m.native_if_at_least) {
        RouteClass::Native => m.native_engine,
        RouteClass::Ocr => m.ocr_engine,
    }
}

/// Index of the first of the first `n` fallback engines the planner accepted.
pub open spec fn first_accepted(accepted: Set<String>, order: Seq<String>, n: nat) -> Option<int>
    decreases n,
{
    if n == 0 {
        None
    } else {
        match first_accepted(accepted, order, (n - 1) as nat) {
            Some(k) => Some(k),
            None => if set_has(accepted, order[n - 1]) {
                Some(n - 1)
            } else {
                None
            },
        }
    }
}

/// An accepted engine no other accepted engine precedes in text order.
pub open spec fn least_accepted(accepted: Set<String>, x: String) -> bool {
    accepted.contains(x) && forall|y: String| #[trigger] accepted.contains(y) ==> !text_before(y@, x@)
}

/// The deterministic fallback: the first accepted engine of the fallback order, else
/// the least accepted engine, else none.
pub open spec fn fallback_choice(accepted: Set<String>, order: Seq<String>) -> Option<Seq<char>> {
    match first_accepted(accepted, order, order.len()) {
        Some(k) => Some(order[k]@),
        None => if exists|x: String| least_accepted(accepted, x) {
            Some((choose|x: String| least_accepted(accepted, x))@)
        } else {
            None
        },
    }
}

/// Two least accepted engines have the same text.
proof fn lemma_least_unique(accepted: Set<String>, x: String, y: String)
    requires
        least_accepted(accepted, x),
        least_accepted(accepted, y),
    ensures
        x@ == y@,
{
    if x@ != y@ {
        crate::ranking::lemma_text_total(x@, y@);
    }
}

/// Calls `BTreeSet::first`, which returns the set's minimum, or nothing for an empty set;
/// strings are ordered by their bytes, which for UTF-8 is the order of their code points.
#[verifier::external_body]
fn set_first<'a>(m: &'a BTreeSet<String>) -> (r: Option<&'a String>)
    ensures
        match r {
            Some(x) => least_accepted(m@, *x),
            None => forall|y: String| !m@.contains(y),
        },
{
    m.first()
}

/// Index of the first fallback engine the planner accepted.
fn first_accepted_index(accepted: &BTreeSet<String>, order: &[String]) -> (r: Option<usize>)
    ensures
        match r {
            Some(k) => first_accepted(accepted@, order@, order@.len()) == Some(k as int) && k
                < order@.len(),
            None => first_accepted(accepted@, order@, order@.len()) is None,
        },
{
    let mut k: usize = 0;
    while k < order.len()
        invariant
            k <= order@.len(),
            first_accepted(accepted@, order@, k as nat) is None,
        decreases order@.len() - k,
    {
        if text_set_contains(accepted, &order[k]) {
            proof {
                lemma_first_accepted_sticks(accepted@, order@, (k + 1) as nat, order@.len());
            }
            return Some(k);
        }
        k = k + 1;
    }
    None
}

/// Once a prefix of the fallback order holds an accepted engine, longer prefixes agree.
proof fn lemma_first_accepted_sticks(accepted: Set<String>, order: Seq<String>, i: nat, n: nat)
    requires
        i <= n,
        first_accepted(accepted, order, i) is Some,
    ensures
        first_accepted(accepted, order, n) == first_accepted(accepted, order, i),
    decreases n - i,
{
    if i < n {
        lemma_first_accepted_sticks(accepted, order, i, (n - 1) as nat);
    }
}

/// The deterministic fallback decision.
fn fallback_decision(planner_accepted: &BTreeSet<String>, fallback_order: &[String]) -> (r: Result<
    RouteDecision,
    RouterError,
>)
    ensures
        match r {
            Ok(d) => fallback_choice(planner_accepted@, fallback_order@) == Some(d.engine_id@)
                && d.source == DecisionSource::DeterministicFallback && d.reason@
                == "learned output unavailable, unqualified, low-confidence, or rejected by hard policy"@,
            Err(RouterError::Integrity(m)) => fallback_choice(planner_accepted@, fallback_order@)
                is None && m@ == "planner accepted no candidate"@,
        },
{
    let engine = match first_accepted_index(planner_accepted, fallback_order) {
        Some(k) => Some(fallback_order[k].clone()),
        None => {
            let least = match set_first(planner_accepted) {
                Some(x) => Some(x.clone()),
                None => None,
            };
            proof {
                if least is Some {
                    let x = least->0;
                    let c = choose|x: String| least_accepted(planner_accepted@, x);
                    lemma_least_unique(planner_accepted@, x, c);
                } else {
                    assert(!exists|x: String| least_accepted(planner_accepted@, x));
                }
            }
            least
        },
    };
    match engine {
        Some(engine_id) => Ok(
            RouteDecision {
                engine_id,
                source: DecisionSource::DeterministicFallback,
                reason: owned(
                    "learned output unavailable, unqualified, low-confidence, or rejected by hard policy",
                ),
            },
        ),
        None => Err(RouterError::Integrity(owned("planner accepted no candidate"))),
    }
}

/// Applies a learned recommendation only after planner hard-policy filtering: the
/// model's engine is used only when the model is usable and the planner accepted that
/// engine; otherwise the deterministic fallback decides.
pub fn guarded_decision(
    model: &RouterModel,
    features: &RoutingFeatures,
    planner_accepted: &BTreeSet<String>,
    fallback_order: &[String],
) -> (r: Result<RouteDecision, RouterError>)
    ensures
        model_usable(*model, *features) && set_has(
            planner_accepted@,
            recommended(*model, *features),
        ) ==> (r matches Ok(d) && d.engine_id@ == recommended(*model, *features)@ && d.source
            == DecisionSource::QualifiedModel && d.reason@
            == "qualified model recommendation passed planner hard policy"@),
        !(model_usable(*model, *features) && set_has(
            planner_accepted@,
            recommended(*model, *features),
        )) ==> match r {
            Ok(d) => fallback_choice(planner_accepted@, fallback_order@) == Some(d.engine_id@)
                && d.source == DecisionSource::DeterministicFallback && d.reason@
                == "learned output unavailable, unqualified, low-confidence, or rejected by hard policy"@,
            Err(RouterError::Integrity(m)) => fallback_choice(planner_accepted@, fallback_order@)
                is None && m@ == "planner accepted no candidate"@,
        },
{
    let qualified = match &model.qualification {
        Qualification::Qualified => true,
        Qualification::Rejected { .. } => false,
    };
    if !role_is(&model.model_version, MODEL_VERSION) || !role_is(
        &model.feature_schema_version,
        FEATURE_SCHEMA_VERSION,
    ) || !qualified || f64_bits_less(model.confidence, model.minimum_confidence)
        || features.native_characters.observed().is_none() {
        return fallback_decision(planner_accepted, fallback_order);
    }
    let engine_id = match stump_route(features, model.threshold, model.native_if_at_least) {
        RouteClass::Native => &model.native_engine,
        RouteClass::Ocr => &model.ocr_engine,
    };
    if !text_set_contains(planner_accepted, engine_id) {
        return fallback_decision(planner_accepted, fallback_order);
    }
    Ok(
        RouteDecision {
            engine_id: engine_id.clone(),
            source: DecisionSource::QualifiedModel,
            reason: owned("qualified model recommendation passed planner hard policy"),
        },
    )
}

/// A learned recommendation is only ever an engine the planner accepted: whatever the
/// model says, an `Ok` decision names an accepted engine.
pub proof fn lemma_decision_respects_planner(
    model: RouterModel,
    features: RoutingFeatures,
    accepted: Set<String>,
    order: Seq<String>,
    d: RouteDecision,
)
    requires
        d.source == DecisionSource::QualifiedModel ==> model_usable(model, features) && set_has(
            accepted,
            recommended(model, features),
        ) && d.engine_id@ == recommended(model, features)@,
        d.source == DecisionSource::DeterministicFallback ==> fallback_choice(accepted, order)
            == Some(d.engine_id@),
    ensures
        exists|x: String| #[trigger] accepted.contains(x) && x@ == d.engine_id@,
{
    match d.source {
        DecisionSource::QualifiedModel => {
            let r = recommended(model, features);
            let x = choose|x: String| #[trigger] accepted.contains(x) && x.deep_view() == r.deep_view();
            assert(accepted.contains(x) && x@ == d.engine_id@);
        },
        DecisionSource::DeterministicFallback => {
            match first_accepted(accepted, order, order.len()) {
                Some(k) => {
                    lemma_first_accepted_found(accepted, order, order.len());
                    let x = choose|x: String| #[trigger] accepted.contains(x) && x.deep_view()
                        == order[k].deep_view();
                    assert(accepted.contains(x) && x@ == d.engine_id@);
                },
                None => {
                    let c = choose|x: String| least_accepted(accepted, x);
                    assert(accepted.contains(c) && c@ == d.engine_id@);
                },
            }
        },
    }
}

/// The index the fallback order yields names an accepted engine.
proof fn lemma_first_accepted_found(accepted: Set<String>, order: Seq<String>, n: nat)
    requires
        n <= order.len(),
    ensures
        first_accepted(accepted, order, n) matches Some(k) ==> 0 <= k < n && set_has(
            accepted,
            order[k],
        ),
    decreases n,
{
    if n > 0 {
        lemma_first_accepted_found(accepted, order, (n - 1) as nat);
    }
}

} // verus!

verus! {

/// Outcome `k` of record `i` exists and takes `route`.
pub open spec fn takes_route(rs: Seq<RoutingRecord>, i: int, k: int, route: RouteClass) -> bool {
    0 <= i < rs.len() && 0 <= k < rs[i].outcomes@.len() && rs[i].outcomes@[k].route == route
}

/// Every outcome taking `route` names engine `e`, and at least one does.
pub open spec fn sole_engine(rs: Seq<RoutingRecord>, route: RouteClass, e: Seq<char>) -> bool {
    &&& exists|i: int, k: int| #[trigger] takes_route(rs, i, k, route)
    &&& forall|i: int, k: int| #[trigger] takes_route(rs, i, k, route) ==> rs[i].outcomes@[k].engine_id@ == e
}

/// The Debug name of a route.
pub open spec fn route_name(route: RouteClass) -> Seq<char> {
    match route {
        RouteClass::Native => "Native"@,
        RouteClass::Ocr => "Ocr"@,
    }
}

/// Outcome `(i, k)` comes before position `(a, b)` in record-then-outcome order.
pub open spec fn visited(i: int, k: int, a: int, b: int) -> bool {
    i < a || (i == a && k < b)
}

/// The one engine implementing `route` across all records; training needs exactly one.
pub fn common_engine(records: &Vec<RoutingRecord>, route: RouteClass) -> (r: Result<String, RouterError>)
    ensures
        match r {
            Ok(e) => sole_engine(records@, route, e@),
            Err(RouterError::Integrity(m)) => (forall|e: Seq<char>| !sole_engine(records@, route, e))
                && m@ == "training requires exactly one "@ + route_name(route)
                + " candidate across all cases"@,
        },
{
    let ghost rs = records@;
    let mut found: Option<String> = None;
    let mut conflict = false;
    let mut i: usize = 0;
    while i < records.len()
        invariant
            rs == records@,
            i <= rs.len(),
            match found {
                None => forall|a: int, b: int|
                    #[trigger] takes_route(rs, a, b, route) ==> !visited(a, b, i as int, 0),
                Some(e) => (exists|a: int, b: int|
                    #[trigger] takes_route(rs, a, b, route) && visited(a, b, i as int, 0)
                        && rs[a].outcomes@[b].engine_id@ == e@) && (!conflict ==> forall|a: int, b: int|
                    #[trigger] takes_route(rs, a, b, route) && visited(a, b, i as int, 0)
                        ==> rs[a].outcomes@[b].engine_id@ == e@),
            },
            conflict ==> exists|a: int, b: int, c: int, d: int|
                #[trigger] takes_route(rs, a, b, route) && #[trigger] takes_route(rs, c, d, route)
                    && rs[a].outcomes@[b].engine_id@ != rs[c].outcomes@[d].engine_id@,
        decreases rs.len() - i,
    {
        let os = &records[i].outcomes;
        let mut k: usize = 0;
        while k < os.len()
            invariant
                rs == records@,
                i < rs.len(),
                os@ == rs[i as int].outcomes@,
                k <= os@.len(),
                match found {
                    None => forall|a: int, b: int|
                        #[trigger] takes_route(rs, a, b, route) ==> !visited(a, b, i as int, k as int),
                    Some(e) => (exists|a: int, b: int|
                        #[trigger] takes_route(rs, a, b, route) && visited(a, b, i as int, k as int)
                            && rs[a].outcomes@[b].engine_id@ == e@) && (!conflict ==> forall|a: int, b: int|
                        #[trigger] takes_route(rs, a, b, route) && visited(a, b, i as int, k as int)
                            ==> rs[a].outcomes@[b].engine_id@ == e@),
                },
                conflict ==> exists|a: int, b: int, c: int, d: int|
                    #[trigger] takes_route(rs, a, b, route) && #[trigger] takes_route(rs, c, d, route)
                        && rs[a].outcomes@[b].engine_id@ != rs[c].outcomes@[d].engine_id@,
            decreases os@.len() - k,
        {
            let o = &os[k];
            assert(takes_route(rs, i as int, k as int, route) == (o.route == route));
            if o.route == route {
                match &found {
                    None => {
                        found = Some(o.engine_id.clone());
                    },
                    Some(e) => {
                        if !(*e == o.engine_id) {
                            proof {
                                let (a, b) = choose|a: int, b: int|
                                    #[trigger] takes_route(rs, a, b, route) && visited(a, b, i as int, k as int)
                                        && rs[a].outcomes@[b].engine_id@ == e@;
                                assert(takes_route(rs, a, b, route) && takes_route(rs, i as int, k as int, route));
                            }
                            conflict = true;
                        }
                    },
                }
            }
            k = k + 1;
        }
        i = i + 1;
    }
    match found {
        Some(e) => {
            if !conflict {
                return Ok(e);
            }
            proof {
                assert forall|x: Seq<char>| !sole_engine(rs, route, x) by {
                    let (a, b, c, d) = choose|a: int, b: int, c: int, d: int|
                        #[trigger] takes_route(rs, a, b, route) && #[trigger] takes_route(rs, c, d, route)
                            && rs[a].outcomes@[b].engine_id@ != rs[c].outcomes@[d].engine_id@;
                }
            }
        },
        None => {
            proof {
                assert forall|x: Seq<char>| !sole_engine(rs, route, x) by {
                    if exists|a: int, b: int| #[trigger] takes_route(rs, a, b, route) {
                        let (a, b) = choose|a: int, b: int| #[trigger] takes_route(rs, a, b, route);
                        assert(visited(a, b, rs.len() as int, 0));
                    }
                }
            }
        },
    }
    let mut m = owned("training requires exactly one ");
    match route {
        RouteClass::Native => push_str(&mut m, "Native"),
        RouteClass::Ocr => push_str(&mut m, "Ocr"),
    }
    push_str(&mut m, " candidate across all cases");
    Err(RouterError::Integrity(m))
}

/// A threshold the stump search tries: zero, or a character count observed on a
/// training record.
pub open spec fn threshold_candidate(rs: Seq<RoutingRecord>, t: u64) -> bool {
    t == 0 || exists|i: int|
        0 <= i < rs.len() && (#[trigger] rs[i]).partition == Partition::Train && observed(
            rs[i].features.native_characters,
        ) == Some(t)
}

/// Inserts `t` into a strictly increasing vector unless it is already there.
fn insert_sorted_unique(v: &mut Vec<u64>, t: u64)
    requires
        forall|a: int, b: int| 0 <= a < b < old(v)@.len() ==> old(v)@[a] < old(v)@[b],
    ensures
        forall|a: int, b: int| 0 <= a < b < final(v)@.len() ==> final(v)@[a] < final(v)@[b],
        forall|x: u64| final(v)@.contains(x) <==> (old(v)@.contains(x) || x == t),
{
    let mut p: usize = 0;
    while p < v.len() && v[p] < t
        invariant
            p <= v@.len(),
            forall|q: int| 0 <= q < p ==> v@[q] < t,
        decreases v@.len() - p,
    {
        p = p + 1;
    }
    if p < v.len() && v[p] == t {
        assert(v@.contains(t) == true) by {
            assert(v@[p as int] == t);
        }
        return;
    }
    let ghost old_v = v@;
    v.insert(p, t);
    proof {
        old_v.insert_ensures(p as int, t);
        assert forall|a: int, b: int| 0 <= a < b < v@.len() implies v@[a] < v@[b] by {
            if b < p {
            } else if b == p {
                assert(v@[a] == old_v[a]);
            } else if a < p {
                assert(v@[a] == old_v[a]);
                assert(v@[b] == old_v[b - 1]);
                assert(old_v[p as int] > t);
                if a < p {
                    assert(old_v[a] < t);
                }
                if b - 1 > p {
                    assert(old_v[p as int] < old_v[b - 1]);
                }
            } else if a == p {
                assert(v@[b] == old_v[b - 1]);
                assert(old_v[p as int] > t);
                if b - 1 > p {
                    assert(old_v[p as int] < old_v[b - 1]);
                }
            } else {
                assert(v@[a] == old_v[a - 1]);
                assert(v@[b] == old_v[b - 1]);
            }
        }
        assert forall|x: u64| v@.contains(x) <==> (old_v.contains(x) || x == t) by {
            if v@.contains(x) {
                let j = choose|j: int| 0 <= j < v@.len() && v@[j] == x;
                if j < p {
                    assert(old_v[j] == x);
                } else if j > p {
                    assert(old_v[j - 1] == x);
                }
            }
            if old_v.contains(x) {
                let j = choose|j: int| 0 <= j < old_v.len() && old_v[j] == x;
                if j < p {
                    assert(v@[j] == x);
                } else {
                    assert(v@[j + 1] == x);
                }
            }
            if x == t {
                assert(v@[p as int] == t);
            }
        }
    }
}

/// The thresholds the stump search tries, in increasing order without repeats: zero and
/// every character count observed on a training record.
pub fn training_thresholds(records: &Vec<RoutingRecord>) -> (t: Vec<u64>)
    ensures
        forall|a: int, b: int| 0 <= a < b < t@.len() ==> t@[a] < t@[b],
        forall|x: u64| t@.contains(x) <==> threshold_candidate(records@, x),
{
    let mut t: Vec<u64> = Vec::new();
    let mut i: usize = 0;
    while i < records.len()
        invariant
            i <= records@.len(),
            forall|a: int, b: int| 0 <= a < b < t@.len() ==> t@[a] < t@[b],
            forall|x: u64|
                t@.contains(x) <==> exists|j: int|
                    0 <= j < i && (#[trigger] records@[j]).partition == Partition::Train
                        && observed(records@[j].features.native_characters) == Some(x),
        decreases records@.len() - i,
    {
        let r = &records[i];
        if r.partition == Partition::Train {
            match r.features.native_characters.observed() {
                Some(c) => insert_sorted_unique(&mut t, c),
                None => {},
            }
        }
        proof {
            assert forall|x: u64|
                t@.contains(x) <==> exists|j: int|
                    0 <= j < i + 1 && (#[trigger] records@[j]).partition == Partition::Train
                        && observed(records@[j].features.native_characters) == Some(x) by {
                if exists|j: int|
                    0 <= j < i + 1 && (#[trigger] records@[j]).partition == Partition::Train
                        && observed(records@[j].features.native_characters) == Some(x) {
                    let j = choose|j: int|
                        0 <= j < i + 1 && (#[trigger] records@[j]).partition == Partition::Train
                            && observed(records@[j].features.native_characters) == Some(x);
                    if j < i {
                        assert(exists|j: int|
                            0 <= j < i && (#[trigger] records@[j]).partition == Partition::Train
                                && observed(records@[j].features.native_characters) == Some(x));
                    }
                }
            }
        }
        i = i + 1;
    }
    insert_sorted_unique(&mut t, 0);
    t
}

} // verus!
