//! Capability-scoped progressive execution: scopes, coverage, and plan dominance.

use std::collections::BTreeSet;

use vstd::prelude::*;

use crate::canonical::{owned, Capability};
use crate::digest::Sha256Digest;
use crate::engine::EngineCandidate;
use crate::ir::Document;
use crate::planner::{candidate_copy, known_cost, known_millis, known_quality, known_bytes};
use crate::provenance::Stage;
use crate::ranking::{lemma_text_irreflexive, lemma_text_total, lemma_text_transitive, text_before, text_precedes};
use crate::research::role_is;
use crate::text::chars_of;
use crate::runtime::RuntimeError;
use crate::blob::ScopedBlob;
use crate::id::{DocumentStateId, RequestId};
use crate::ir::IrError;
use crate::state::{
    find_page, has_region, lemma_page_position_found, page_has_region, page_position,
    CoverageEntry, DocumentStateManifest, PageRegionRef, RefinementScope, DOCUMENT_STATE_SCHEMA,
};

verus! {

/// Most candidate plans a request may produce.
pub const MAX_PARETO_PLANS: usize = 64;

/// One generic capability requested over an explicit semantic scope.
#[derive(Debug, Clone, PartialEq, Eq)]
pub struct CapabilityGoal {
    /// Capability to produce.
    pub capability: Capability,
    /// Whole-document, explicit-page, or page-qualified-region scope.
    pub scope: RefinementScope,
}

/// One registered stage's semantic declaration.
#[derive(Debug, Clone, PartialEq, Eq)]
pub struct EnrichmentStageDescriptor {
    /// Stable stage identity, unique within one runtime.
    pub id: String,
    /// Logical provenance stage written into the delta.
    pub stage: Stage,
    /// Immutable engine source/build identity written into delta provenance.
    pub build: Sha256Digest,
    /// Immutable model identity, when this registered stage uses a model.
    pub model_digest: Option<Sha256Digest>,
    /// Capability this stage produces.
    pub produces: Capability,
    /// Capabilities that must already be complete over the same scope.
    pub requires: BTreeSet<Capability>,
}

/// The page set holds `id`.
pub open spec fn pages_hold(ids: Seq<crate::id::PageId>, id: Seq<char>) -> bool {
    exists|k: int| 0 <= k < ids.len() && (#[trigger] ids[k])@ == id
}

/// The region set holds the page-qualified region `r`.
pub open spec fn regions_hold(rs: Seq<PageRegionRef>, r: PageRegionRef) -> bool {
    exists|k: int|
        0 <= k < rs.len() && (#[trigger] rs[k]).page_id@ == r.page_id@ && rs[k].region_id@
            == r.region_id@
}

/// Coverage over `covered` includes everything in `requested`: the document covers all;
/// pages cover pages they hold and regions on pages they hold; regions cover regions
/// they hold.
pub open spec fn covers(covered: RefinementScope, requested: RefinementScope) -> bool {
    match (covered, requested) {
        (RefinementScope::Document, _) => true,
        (RefinementScope::Pages { page_ids: c }, RefinementScope::Pages { page_ids: r }) => forall|
            k: int,
        | 0 <= k < r@.len() ==> pages_hold(c@, (#[trigger] r@[k])@),
        (RefinementScope::Pages { page_ids: c }, RefinementScope::Regions { regions: r }) => forall|
            k: int,
        | 0 <= k < r@.len() ==> pages_hold(c@, (#[trigger] r@[k]).page_id@),
        (RefinementScope::Regions { regions: c }, RefinementScope::Regions { regions: r }) => forall|
            k: int,
        | 0 <= k < r@.len() ==> regions_hold(c@, #[trigger] r@[k]),
        _ => false,
    }
}

/// Coverage is a preorder: every scope covers itself, and covering is transitive.
pub proof fn lemma_coverage_is_a_preorder(a: RefinementScope, b: RefinementScope, c: RefinementScope)
    ensures
        covers(a, a),
        covers(a, b) && covers(b, c) ==> covers(a, c),
{
    match a {
        RefinementScope::Pages { page_ids } => {
            assert forall|k: int| 0 <= k < page_ids@.len() implies pages_hold(
                page_ids@,
                (#[trigger] page_ids@[k])@,
            ) by {
                assert(page_ids@[k]@ == page_ids@[k]@);
            }
        },
        RefinementScope::Regions { regions } => {
            assert forall|k: int| 0 <= k < regions@.len() implies regions_hold(
                regions@,
                #[trigger] regions@[k],
            ) by {
                assert(regions@[k].page_id@ == regions@[k].page_id@);
            }
        },
        RefinementScope::Document => {},
    }
    if covers(a, b) && covers(b, c) {
        match (a, b, c) {
            (
                RefinementScope::Pages { page_ids: pa },
                RefinementScope::Pages { page_ids: pb },
                RefinementScope::Pages { page_ids: pc },
            ) => {
                assert forall|k: int| 0 <= k < pc@.len() implies pages_hold(pa@, (#[trigger] pc@[k])@) by {
                    assert(pages_hold(pb@, pc@[k]@));
                    let j = choose|j: int| 0 <= j < pb@.len() && (#[trigger] pb@[j])@ == pc@[k]@;
                    assert(pages_hold(pa@, pb@[j]@));
                }
            },
            (
                RefinementScope::Pages { page_ids: pa },
                RefinementScope::Pages { page_ids: pb },
                RefinementScope::Regions { regions: rc },
            ) => {
                assert forall|k: int| 0 <= k < rc@.len() implies pages_hold(
                    pa@,
                    (#[trigger] rc@[k]).page_id@,
                ) by {
                    assert(pages_hold(pb@, rc@[k].page_id@));
                    let j = choose|j: int| 0 <= j < pb@.len() && (#[trigger] pb@[j])@ == rc@[k].page_id@;
                    assert(pages_hold(pa@, pb@[j]@));
                }
            },
            (
                RefinementScope::Pages { page_ids: pa },
                RefinementScope::Regions { regions: rb },
                RefinementScope::Regions { regions: rc },
            ) => {
                assert forall|k: int| 0 <= k < rc@.len() implies pages_hold(
                    pa@,
                    (#[trigger] rc@[k]).page_id@,
                ) by {
                    assert(regions_hold(rb@, rc@[k]));
                    let j = choose|j: int|
                        0 <= j < rb@.len() && (#[trigger] rb@[j]).page_id@ == rc@[k].page_id@
                            && rb@[j].region_id@ == rc@[k].region_id@;
                    assert(pages_hold(pa@, rb@[j].page_id@));
                }
            },
            (
                RefinementScope::Regions { regions: ra },
                RefinementScope::Regions { regions: rb },
                RefinementScope::Regions { regions: rc },
            ) => {
                assert forall|k: int| 0 <= k < rc@.len() implies regions_hold(ra@, #[trigger] rc@[k]) by {
                    assert(regions_hold(rb@, rc@[k]));
                    let j = choose|j: int|
                        0 <= j < rb@.len() && (#[trigger] rb@[j]).page_id@ == rc@[k].page_id@
                            && rb@[j].region_id@ == rc@[k].region_id@;
                    assert(regions_hold(ra@, rb@[j]));
                }
            },
            _ => {},
        }
    }
}

/// True when the page set holds `id`.
fn pages_contain(ids: &Vec<crate::id::PageId>, id: &crate::id::PageId) -> (r: bool)
    ensures
        r == pages_hold(ids@, id@),
{
    let mut k: usize = 0;
    while k < ids.len()
        invariant
            k <= ids@.len(),
            forall|q: int| 0 <= q < k ==> (#[trigger] ids@[q])@ != id@,
        decreases ids@.len() - k,
    {
        if ids[k].same_as(id) {
            return true;
        }
        k = k + 1;
    }
    false
}

/// True when the region set holds `r`.
fn regions_contain(rs: &Vec<PageRegionRef>, r: &PageRegionRef) -> (b: bool)
    ensures
        b == regions_hold(rs@, *r),
{
    let mut k: usize = 0;
    while k < rs.len()
        invariant
            k <= rs@.len(),
            forall|q: int|
                0 <= q < k ==> !((#[trigger] rs@[q]).page_id@ == r.page_id@ && rs@[q].region_id@
                    == r.region_id@),
        decreases rs@.len() - k,
    {
        if rs[k].page_id.same_as(&r.page_id) && rs[k].region_id.same_as(&r.region_id) {
            return true;
        }
        k = k + 1;
    }
    false
}

/// True when coverage over `covered` includes `requested`.
pub fn scope_covers(covered: &RefinementScope, requested: &RefinementScope) -> (r: bool)
    ensures
        r == covers(*covered, *requested),
{
    match (covered, requested) {
        (RefinementScope::Document, _) => true,
        (RefinementScope::Pages { page_ids: c }, RefinementScope::Pages { page_ids: r }) => {
            let mut k: usize = 0;
            while k < r.len()
                invariant
                    k <= r@.len(),
                    covers(*covered, *requested) == forall|q: int|
                        0 <= q < r@.len() ==> pages_hold(c@, (#[trigger] r@[q])@),
                    forall|q: int| 0 <= q < k ==> pages_hold(c@, (#[trigger] r@[q])@),
                decreases r@.len() - k,
            {
                if !pages_contain(c, &r[k]) {
                    return false;
                }
                k = k + 1;
            }
            true
        },
        (RefinementScope::Pages { page_ids: c }, RefinementScope::Regions { regions: r }) => {
            let mut k: usize = 0;
            while k < r.len()
                invariant
                    k <= r@.len(),
                    covers(*covered, *requested) == forall|q: int|
                        0 <= q < r@.len() ==> pages_hold(c@, (#[trigger] r@[q]).page_id@),
                    forall|q: int| 0 <= q < k ==> pages_hold(c@, (#[trigger] r@[q]).page_id@),
                decreases r@.len() - k,
            {
                if !pages_contain(c, &r[k].page_id) {
                    return false;
                }
                k = k + 1;
            }
            true
        },
        (RefinementScope::Regions { regions: c }, RefinementScope::Regions { regions: r }) => {
            let mut k: usize = 0;
            while k < r.len()
                invariant
                    k <= r@.len(),
                    covers(*covered, *requested) == forall|q: int|
                        0 <= q < r@.len() ==> regions_hold(c@, #[trigger] r@[q]),
                    forall|q: int| 0 <= q < k ==> regions_hold(c@, #[trigger] r@[q]),
                decreases r@.len() - k,
            {
                if !regions_contain(c, &r[k]) {
                    return false;
                }
                k = k + 1;
            }
            true
        },
        _ => false,
    }
}

/// Some complete coverage entry for the capability covers the requested scope.
pub open spec fn coverage_holds(
    coverage: Seq<CoverageEntry>,
    capability: Capability,
    requested: RefinementScope,
) -> bool {
    exists|k: int|
        0 <= k < coverage.len() && (#[trigger] coverage[k]).capability == capability
            && coverage[k].status@ == "complete"@ && covers(coverage[k].scope, requested)
}

/// True when a complete coverage entry for the capability covers the requested scope.
pub fn coverage_complete(
    coverage: &[CoverageEntry],
    capability: Capability,
    requested: &RefinementScope,
) -> (r: bool)
    ensures
        r == coverage_holds(coverage@, capability, *requested),
{
    let mut k: usize = 0;
    while k < coverage.len()
        invariant
            k <= coverage@.len(),
            forall|q: int|
                0 <= q < k ==> !((#[trigger] coverage@[q]).capability == capability
                    && coverage@[q].status@ == "complete"@ && covers(coverage@[q].scope, *requested)),
        decreases coverage@.len() - k,
    {
        let entry = &coverage[k];
        if entry.capability == capability && role_is(&entry.status, "complete") && scope_covers(
            &entry.scope,
            requested,
        ) {
            return true;
        }
        k = k + 1;
    }
    false
}

/// The message of the first reason a scope does not resolve in a document, if any:
/// an empty page or region set, an absent page, an absent containing page, or a region
/// absent from the first page with its page identifier.
pub open spec fn scope_fault(scope: RefinementScope, document: Document) -> Option<Seq<char>> {
    let pages = document.pages@;
    match scope {
        RefinementScope::Document => None,
        RefinementScope::Pages { page_ids } => if page_ids@.len() == 0 {
            Some("page scope is empty"@)
        } else if forall|k: int|
            0 <= k < page_ids@.len() ==> page_position(pages, (#[trigger] page_ids@[k])@, pages.len())
                is Some {
            None
        } else {
            Some("page scope contains an absent page"@)
        },
        RefinementScope::Regions { regions } => if regions@.len() == 0 {
            Some("region scope is empty"@)
        } else {
            region_scope_fault(regions@, pages, regions@.len())
        },
    }
}

/// The first fault among the first `n` region targets.
pub open spec fn region_scope_fault(rs: Seq<PageRegionRef>, pages: Seq<crate::ir::Page>, n: nat) -> Option<
    Seq<char>,
>
    decreases n,
{
    if n == 0 {
        None
    } else {
        match region_scope_fault(rs, pages, (n - 1) as nat) {
            Some(m) => Some(m),
            None => match page_position(pages, rs[n - 1].page_id@, pages.len()) {
                None => Some("region scope contains an absent containing page"@),
                Some(p) => if page_has_region(pages[p], rs[n - 1].region_id@) {
                    None
                } else {
                    Some("region scope contains an absent region on its qualified page"@)
                },
            },
        }
    }
}

/// Once a prefix of region targets holds a fault, longer prefixes agree.
proof fn lemma_region_fault_sticks(rs: Seq<PageRegionRef>, pages: Seq<crate::ir::Page>, i: nat, n: nat)
    requires
        i <= n,
        region_scope_fault(rs, pages, i) is Some,
    ensures
        region_scope_fault(rs, pages, n) == region_scope_fault(rs, pages, i),
    decreases n - i,
{
    if i < n {
        lemma_region_fault_sticks(rs, pages, i, (n - 1) as nat);
    }
}

/// The enrichment error carrying `message`.
fn enrichment_error(message: &str) -> (e: RuntimeError)
    ensures
        e == RuntimeError::InvalidEnrichment(e->InvalidEnrichment_0),
        e->InvalidEnrichment_0@ == message@,
{
    RuntimeError::InvalidEnrichment(owned(message))
}

/// Checks that a scope resolves in the document.
pub fn validate_scope(scope: &RefinementScope, document: &Document) -> (r: Result<(), RuntimeError>)
    ensures
        r is Ok <==> scope_fault(*scope, *document) is None,
        r matches Err(e) ==> (e matches RuntimeError::InvalidEnrichment(m) && Some(m@)
            == scope_fault(*scope, *document)),
{
    let pages = &document.pages;
    match scope {
        RefinementScope::Document => Ok(()),
        RefinementScope::Pages { page_ids } => {
            if page_ids.len() == 0 {
                return Err(enrichment_error("page scope is empty"));
            }
            let mut k: usize = 0;
            while k < page_ids.len()
                invariant
                    pages == &document.pages,
                    k <= page_ids@.len(),
                    scope_fault(*scope, *document) == (if forall|q: int|
                        0 <= q < page_ids@.len() ==> page_position(
                            pages@,
                            (#[trigger] page_ids@[q])@,
                            pages@.len(),
                        ) is Some {
                        None
                    } else {
                        Some("page scope contains an absent page"@)
                    }),
                    forall|q: int|
                        0 <= q < k ==> page_position(pages@, (#[trigger] page_ids@[q])@, pages@.len())
                            is Some,
                decreases page_ids@.len() - k,
            {
                if find_page(pages, &page_ids[k]).is_none() {
                    return Err(enrichment_error("page scope contains an absent page"));
                }
                k = k + 1;
            }
            Ok(())
        },
        RefinementScope::Regions { regions } => {
            if regions.len() == 0 {
                return Err(enrichment_error("region scope is empty"));
            }
            let mut k: usize = 0;
            while k < regions.len()
                invariant
                    pages == &document.pages,
                    regions@.len() > 0,
                    scope_fault(*scope, *document) == region_scope_fault(
                        regions@,
                        pages@,
                        regions@.len(),
                    ),
                    k <= regions@.len(),
                    region_scope_fault(regions@, pages@, k as nat) is None,
                decreases regions@.len() - k,
            {
                let found = find_page(pages, &regions[k].page_id);
                proof {
                    lemma_page_position_found(pages@, regions@[k as int].page_id@, pages@.len());
                }
                match found {
                    None => {
                        proof {
                            lemma_region_fault_sticks(regions@, pages@, (k + 1) as nat, regions@.len());
                        }
                        return Err(
                            enrichment_error("region scope contains an absent containing page"),
                        );
                    },
                    Some(p) => {
                        if !has_region(&pages[p], &regions[k].region_id) {
                            proof {
                                lemma_region_fault_sticks(
                                    regions@,
                                    pages@,
                                    (k + 1) as nat,
                                    regions@.len(),
                                );
                            }
                            return Err(
                                enrichment_error(
                                    "region scope contains an absent region on its qualified page",
                                ),
                            );
                        }
                    },
                }
                k = k + 1;
            }
            Ok(())
        },
    }
}

/// The label of a scope's kind.
pub open spec fn scope_label_text(scope: RefinementScope) -> Seq<char> {
    match scope {
        RefinementScope::Document => "document"@,
        RefinementScope::Pages { .. } => "page"@,
        RefinementScope::Regions { .. } => "page-qualified region"@,
    }
}

/// The label of a scope's kind.
pub fn scope_label(scope: &RefinementScope) -> (s: &'static str)
    ensures
        s@ == scope_label_text(*scope),
{
    match scope {
        RefinementScope::Document => "document",
        RefinementScope::Pages { .. } => "page",
        RefinementScope::Regions { .. } => "page-qualified region",
    }
}

/// Aggregate cost and quality of a plan's invocations: the largest memory figures, the
/// summed latency and cost (saturating), and the lowest quality key; each absent when any
/// invocation's figure is unknown, and maxima and minima absent for an empty plan.
#[derive(Debug, Clone, Copy, PartialEq, Eq)]
pub struct PlanMetrics {
    /// Largest peak RAM.
    pub peak_ram: Option<u64>,
    /// Largest warm RAM.
    pub warm_ram: Option<u64>,
    /// Largest peak VRAM.
    pub peak_vram: Option<u64>,
    /// Largest warm VRAM.
    pub warm_vram: Option<u64>,
    /// Total latency.
    pub latency: Option<u64>,
    /// Total remote cost.
    pub remote_cost: Option<u64>,
    /// Lowest quality key.
    pub quality: Option<u64>,
}

/// Every value is known.
pub open spec fn all_known(v: Seq<Option<u64>>) -> bool {
    forall|i: int| 0 <= i < v.len() ==> (#[trigger] v[i]) is Some
}

/// The largest of the first `n` known values (zero for none).
pub open spec fn max_of(v: Seq<Option<u64>>, n: nat) -> u64
    decreases n,
{
    if n == 0 {
        0
    } else {
        let rest = max_of(v, (n - 1) as nat);
        let x = v[n - 1]->0;
        if n == 1 || x > rest {
            x
        } else {
            rest
        }
    }
}

/// The smallest of the first `n` known values (zero for none).
pub open spec fn min_of(v: Seq<Option<u64>>, n: nat) -> u64
    decreases n,
{
    if n == 0 {
        0
    } else {
        let rest = min_of(v, (n - 1) as nat);
        let x = v[n - 1]->0;
        if n == 1 || x < rest {
            x
        } else {
            rest
        }
    }
}

/// The saturating sum of the first `n` known values.
pub open spec fn sum_of(v: Seq<Option<u64>>, n: nat) -> u64
    decreases n,
{
    if n == 0 {
        0
    } else {
        let s = sum_of(v, (n - 1) as nat) + v[n - 1]->0;
        if s > u64::MAX {
            u64::MAX
        } else {
            s as u64
        }
    }
}

/// The largest value when all are known and there is one.
pub open spec fn maximum(v: Seq<Option<u64>>) -> Option<u64> {
    if all_known(v) && v.len() > 0 {
        Some(max_of(v, v.len()))
    } else {
        None
    }
}

/// The smallest value when all are known and there is one.
pub open spec fn minimum(v: Seq<Option<u64>>) -> Option<u64> {
    if all_known(v) && v.len() > 0 {
        Some(min_of(v, v.len()))
    } else {
        None
    }
}

/// The saturating total when all are known.
pub open spec fn total(v: Seq<Option<u64>>) -> Option<u64> {
    if all_known(v) {
        Some(sum_of(v, v.len()))
    } else {
        None
    }
}

/// Computes `maximum`, `minimum` or `total` of a value list, by `which`.
fn aggregate(v: &Vec<Option<u64>>, which: u8) -> (r: Option<u64>)
    requires
        which < 3,
    ensures
        which == 0 ==> r == maximum(v@),
        which == 1 ==> r == minimum(v@),
        which == 2 ==> r == total(v@),
{
    let mut acc: u64 = 0;
    let mut i: usize = 0;
    while i < v.len()
        invariant
            i <= v@.len(),
            which < 3,
            all_known(v@.take(i as int)),
            which == 0 ==> acc == max_of(v@, i as nat),
            which == 1 ==> acc == min_of(v@, i as nat),
            which == 2 ==> acc == sum_of(v@, i as nat),
        decreases v@.len() - i,
    {
        let x = match v[i] {
            Some(x) => x,
            None => {
                assert(!all_known(v@));
                return None;
            },
        };
        if which == 0 {
            if i == 0 || x > acc {
                acc = x;
            }
        } else if which == 1 {
            if i == 0 || x < acc {
                acc = x;
            }
        } else {
            acc = acc.saturating_add(x);
        }
        assert(v@.take(i + 1) =~= v@.take(i as int).push(Some(x))) by {
            assert(v@[i as int] == Some(x));
        }
        i = i + 1;
    }
    assert(v@.take(v@.len() as int) =~= v@);
    if which != 2 && v.len() == 0 {
        return None;
    }
    Some(acc)
}

/// The metrics of a plan whose invocations use these candidates.
pub open spec fn metrics_of(cs: Seq<EngineCandidate>) -> PlanMetrics {
    PlanMetrics {
        peak_ram: maximum(Seq::new(cs.len(), |i: int| known_bytes(cs[i].resources.peak_ram))),
        warm_ram: maximum(Seq::new(cs.len(), |i: int| known_bytes(cs[i].resources.warm_ram))),
        peak_vram: maximum(Seq::new(cs.len(), |i: int| known_bytes(cs[i].resources.peak_vram))),
        warm_vram: maximum(Seq::new(cs.len(), |i: int| known_bytes(cs[i].resources.warm_vram))),
        latency: total(Seq::new(cs.len(), |i: int| known_millis(cs[i].resources.latency))),
        remote_cost: total(Seq::new(cs.len(), |i: int| known_cost(cs[i].resources.remote_cost))),
        quality: minimum(Seq::new(cs.len(), |i: int| known_quality(cs[i].resources.quality))),
    }
}

/// A sum over a prefix does not see what is appended after it.
proof fn lemma_sum_of_prefix(v: Seq<Option<u64>>, x: Option<u64>, n: nat)
    requires
        n <= v.len(),
    ensures
        sum_of(v.push(x), n) == sum_of(v, n),
    decreases n,
{
    if n > 0 {
        lemma_sum_of_prefix(v, x, (n - 1) as nat);
        assert(v.push(x)[n - 1] == v[n - 1]);
    }
}

/// The remote cost of a plan is the saturating sum of its invocations' known costs: an
/// empty plan costs nothing, and adding an invocation adds its cost (capped at the largest
/// `u64`) when all costs are known, and leaves the cost unknown otherwise. Latency adds up
/// the same way.
pub proof fn lemma_plan_cost_and_latency_add(cs: Seq<EngineCandidate>, c: EngineCandidate)
    ensures
        metrics_of(Seq::<EngineCandidate>::empty()).remote_cost == Some(0u64),
        metrics_of(Seq::<EngineCandidate>::empty()).latency == Some(0u64),
        metrics_of(cs.push(c)).remote_cost == match (metrics_of(cs).remote_cost, c.resources.remote_cost) {
            (Some(t), crate::resource::Estimate::Known(x)) => Some(
                if t + x@ > u64::MAX {
                    u64::MAX
                } else {
                    (t + x@) as u64
                },
            ),
            _ => None,
        },
        metrics_of(cs.push(c)).latency == match (metrics_of(cs).latency, c.resources.latency) {
            (Some(t), crate::resource::Estimate::Known(x)) => Some(
                if t + x@ > u64::MAX {
                    u64::MAX
                } else {
                    (t + x@) as u64
                },
            ),
            _ => None,
        },
{
    let e = Seq::<EngineCandidate>::empty();
    assert(Seq::new(e.len(), |i: int| known_cost(e[i].resources.remote_cost)) =~= Seq::<Option<u64>>::empty());
    assert(Seq::new(e.len(), |i: int| known_millis(e[i].resources.latency)) =~= Seq::<Option<u64>>::empty());
    let d = cs.push(c);
    let vc = Seq::new(cs.len(), |i: int| known_cost(cs[i].resources.remote_cost));
    let wc = Seq::new(d.len(), |i: int| known_cost(d[i].resources.remote_cost));
    assert(wc =~= vc.push(known_cost(c.resources.remote_cost)));
    lemma_sum_of_prefix(vc, known_cost(c.resources.remote_cost), vc.len());
    assert(all_known(wc) <==> (all_known(vc) && known_cost(c.resources.remote_cost) is Some)) by {
        if all_known(wc) {
            assert(wc[vc.len() as int] == known_cost(c.resources.remote_cost));
            assert forall|i: int| 0 <= i < vc.len() implies (#[trigger] vc[i]) is Some by {
                assert(wc[i] == vc[i]);
            }
        }
    }
    let vl = Seq::new(cs.len(), |i: int| known_millis(cs[i].resources.latency));
    let wl = Seq::new(d.len(), |i: int| known_millis(d[i].resources.latency));
    assert(wl =~= vl.push(known_millis(c.resources.latency)));
    lemma_sum_of_prefix(vl, known_millis(c.resources.latency), vl.len());
    assert(all_known(wl) <==> (all_known(vl) && known_millis(c.resources.latency) is Some)) by {
        if all_known(wl) {
            assert(wl[vl.len() as int] == known_millis(c.resources.latency));
            assert forall|i: int| 0 <= i < vl.len() implies (#[trigger] vl[i]) is Some by {
                assert(wl[i] == vl[i]);
            }
        }
    }
}

/// The extremes over a prefix do not see what is appended after it.
proof fn lemma_extremes_prefix(v: Seq<Option<u64>>, x: Option<u64>, n: nat)
    requires
        n <= v.len(),
    ensures
        max_of(v.push(x), n) == max_of(v, n),
        min_of(v.push(x), n) == min_of(v, n),
    decreases n,
{
    if n > 0 {
        lemma_extremes_prefix(v, x, (n - 1) as nat);
        assert(v.push(x)[n - 1] == v[n - 1]);
    }
}

/// The largest and smallest known values after appending one value.
proof fn lemma_extremes_push(v: Seq<Option<u64>>, x: Option<u64>)
    ensures
        maximum(v.push(x)) == if v.len() == 0 {
            x
        } else {
            match (maximum(v), x) {
                (Some(m), Some(y)) => Some(if y > m { y } else { m }),
                _ => None,
            }
        },
        minimum(v.push(x)) == if v.len() == 0 {
            x
        } else {
            match (minimum(v), x) {
                (Some(m), Some(y)) => Some(if y < m { y } else { m }),
                _ => None,
            }
        },
{
    let w = v.push(x);
    lemma_extremes_prefix(v, x, v.len());
    assert(w[v.len() as int] == x);
    assert(all_known(w) <==> (all_known(v) && x is Some)) by {
        if all_known(w) {
            assert forall|i: int| 0 <= i < v.len() implies (#[trigger] v[i]) is Some by {
                assert(w[i] == v[i]);
            }
        }
    }
}

/// The peak and warm memory figures of a plan are the largest of its invocations' known
/// figures, and its quality the lowest: appending an invocation to a nonempty plan takes
/// the larger (for quality, the smaller) of the plan's figure and the invocation's, a
/// one-invocation plan takes the invocation's own, and any unknown figure makes the plan's
/// unknown.
pub proof fn lemma_plan_extremes_combine(cs: Seq<EngineCandidate>, c: EngineCandidate)
    ensures
        cs.len() > 0 ==> metrics_of(cs.push(c)).peak_ram == match (metrics_of(cs).peak_ram, c.resources.peak_ram) {
            (Some(m), crate::resource::Estimate::Known(y)) => Some(if y@ > m { y@ } else { m }),
            _ => None,
        },
        cs.len() > 0 ==> metrics_of(cs.push(c)).peak_vram == match (metrics_of(cs).peak_vram, c.resources.peak_vram) {
            (Some(m), crate::resource::Estimate::Known(y)) => Some(if y@ > m { y@ } else { m }),
            _ => None,
        },
        cs.len() > 0 ==> metrics_of(cs.push(c)).warm_ram == match (metrics_of(cs).warm_ram, c.resources.warm_ram) {
            (Some(m), crate::resource::Estimate::Known(y)) => Some(if y@ > m { y@ } else { m }),
            _ => None,
        },
        cs.len() > 0 ==> metrics_of(cs.push(c)).warm_vram == match (metrics_of(cs).warm_vram, c.resources.warm_vram) {
            (Some(m), crate::resource::Estimate::Known(y)) => Some(if y@ > m { y@ } else { m }),
            _ => None,
        },
        cs.len() > 0 ==> metrics_of(cs.push(c)).quality == match (metrics_of(cs).quality, c.resources.quality) {
            (Some(m), crate::resource::Estimate::Known(y)) => Some(if y < m { y } else { m }),
            _ => None,
        },
        cs.len() == 0 ==> metrics_of(cs.push(c)).peak_ram == match c.resources.peak_ram {
            crate::resource::Estimate::Known(y) => Some(y@),
            _ => None,
        },
        cs.len() == 0 ==> metrics_of(cs.push(c)).quality == match c.resources.quality {
            crate::resource::Estimate::Known(y) => Some(y),
            _ => None,
        },
{
    let d = cs.push(c);
    let a0 = Seq::new(cs.len(), |i: int| known_bytes(cs[i].resources.peak_ram));
    assert(Seq::new(d.len(), |i: int| known_bytes(d[i].resources.peak_ram)) =~= a0.push(known_bytes(c.resources.peak_ram)));
    lemma_extremes_push(a0, known_bytes(c.resources.peak_ram));
    let a1 = Seq::new(cs.len(), |i: int| known_bytes(cs[i].resources.peak_vram));
    assert(Seq::new(d.len(), |i: int| known_bytes(d[i].resources.peak_vram)) =~= a1.push(known_bytes(c.resources.peak_vram)));
    lemma_extremes_push(a1, known_bytes(c.resources.peak_vram));
    let a2 = Seq::new(cs.len(), |i: int| known_bytes(cs[i].resources.warm_ram));
    assert(Seq::new(d.len(), |i: int| known_bytes(d[i].resources.warm_ram)) =~= a2.push(known_bytes(c.resources.warm_ram)));
    lemma_extremes_push(a2, known_bytes(c.resources.warm_ram));
    let a3 = Seq::new(cs.len(), |i: int| known_bytes(cs[i].resources.warm_vram));
    assert(Seq::new(d.len(), |i: int| known_bytes(d[i].resources.warm_vram)) =~= a3.push(known_bytes(c.resources.warm_vram)));
    lemma_extremes_push(a3, known_bytes(c.resources.warm_vram));
    let a4 = Seq::new(cs.len(), |i: int| known_quality(cs[i].resources.quality));
    assert(Seq::new(d.len(), |i: int| known_quality(d[i].resources.quality)) =~= a4.push(known_quality(c.resources.quality)));
    lemma_extremes_push(a4, known_quality(c.resources.quality));
}

/// Computes one per-invocation figure: 0 peak RAM, 1 warm RAM, 2 peak VRAM, 3 warm VRAM,
/// 4 latency, 5 remote cost, 6 quality.
fn figures(cs: &[EngineCandidate], which: u8) -> (v: Vec<Option<u64>>)
    requires
        which < 7,
    ensures
        v@.len() == cs@.len(),
        forall|i: int|
            0 <= i < cs@.len() ==> #[trigger] v@[i] == (if which == 0 {
                known_bytes(cs@[i].resources.peak_ram)
            } else if which == 1 {
                known_bytes(cs@[i].resources.warm_ram)
            } else if which == 2 {
                known_bytes(cs@[i].resources.peak_vram)
            } else if which == 3 {
                known_bytes(cs@[i].resources.warm_vram)
            } else if which == 4 {
                known_millis(cs@[i].resources.latency)
            } else if which == 5 {
                known_cost(cs@[i].resources.remote_cost)
            } else {
                known_quality(cs@[i].resources.quality)
            }),
{
    let mut v: Vec<Option<u64>> = Vec::new();
    let mut i: usize = 0;
    while i < cs.len()
        invariant
            which < 7,
            i <= cs@.len(),
            v@.len() == i,
            forall|k: int|
                0 <= k < i ==> #[trigger] v@[k] == (if which == 0 {
                    known_bytes(cs@[k].resources.peak_ram)
                } else if which == 1 {
                    known_bytes(cs@[k].resources.warm_ram)
                } else if which == 2 {
                    known_bytes(cs@[k].resources.peak_vram)
                } else if which == 3 {
                    known_bytes(cs@[k].resources.warm_vram)
                } else if which == 4 {
                    known_millis(cs@[k].resources.latency)
                } else if which == 5 {
                    known_cost(cs@[k].resources.remote_cost)
                } else {
                    known_quality(cs@[k].resources.quality)
                }),
        decreases cs@.len() - i,
    {
        let r = &cs[i].resources;
        let x = if which == 0 {
            match r.peak_ram {
                crate::resource::Estimate::Known(b) => Some(b.get()),
                crate::resource::Estimate::Unknown => None,
            }
        } else if which == 1 {
            match r.warm_ram {
                crate::resource::Estimate::Known(b) => Some(b.get()),
                crate::resource::Estimate::Unknown => None,
            }
        } else if which == 2 {
            match r.peak_vram {
                crate::resource::Estimate::Known(b) => Some(b.get()),
                crate::resource::Estimate::Unknown => None,
            }
        } else if which == 3 {
            match r.warm_vram {
                crate::resource::Estimate::Known(b) => Some(b.get()),
                crate::resource::Estimate::Unknown => None,
            }
        } else if which == 4 {
            match r.latency {
                crate::resource::Estimate::Known(m) => Some(m.get()),
                crate::resource::Estimate::Unknown => None,
            }
        } else if which == 5 {
            match r.remote_cost {
                crate::resource::Estimate::Known(m) => Some(m.get()),
                crate::resource::Estimate::Unknown => None,
            }
        } else {
            match r.quality {
                crate::resource::Estimate::Known(q) => Some(q),
                crate::resource::Estimate::Unknown => None,
            }
        };
        v.push(x);
        i = i + 1;
    }
    v
}

/// The aggregate metrics of a plan whose invocations use these candidates.
pub fn plan_metrics(cs: &[EngineCandidate]) -> (m: PlanMetrics)
    ensures
        m == metrics_of(cs@),
{
    let v0 = figures(cs, 0);
    let v1 = figures(cs, 1);
    let v2 = figures(cs, 2);
    let v3 = figures(cs, 3);
    let v4 = figures(cs, 4);
    let v5 = figures(cs, 5);
    let v6 = figures(cs, 6);
    proof {
        assert(v0@ =~= Seq::new(cs@.len(), |i: int| known_bytes(cs@[i].resources.peak_ram)));
        assert(v1@ =~= Seq::new(cs@.len(), |i: int| known_bytes(cs@[i].resources.warm_ram)));
        assert(v2@ =~= Seq::new(cs@.len(), |i: int| known_bytes(cs@[i].resources.peak_vram)));
        assert(v3@ =~= Seq::new(cs@.len(), |i: int| known_bytes(cs@[i].resources.warm_vram)));
        assert(v4@ =~= Seq::new(cs@.len(), |i: int| known_millis(cs@[i].resources.latency)));
        assert(v5@ =~= Seq::new(cs@.len(), |i: int| known_cost(cs@[i].resources.remote_cost)));
        assert(v6@ =~= Seq::new(cs@.len(), |i: int| known_quality(cs@[i].resources.quality)));
    }
    PlanMetrics {
        peak_ram: aggregate(&v0, 0),
        warm_ram: aggregate(&v1, 0),
        peak_vram: aggregate(&v2, 0),
        warm_vram: aggregate(&v3, 0),
        latency: aggregate(&v4, 2),
        remote_cost: aggregate(&v5, 2),
        quality: aggregate(&v6, 1),
    }
}


/// A known figure no larger than another known figure.
pub open spec fn no_worse(a: Option<u64>, b: Option<u64>) -> bool {
    a is Some && b is Some && a->0 <= b->0
}

/// A known figure smaller than another known figure.
pub open spec fn better(a: Option<u64>, b: Option<u64>) -> bool {
    a is Some && b is Some && a->0 < b->0
}

/// Plan `l` Pareto-dominates plan `r`: every cost of `l` is known and no larger, its
/// quality is known and no lower, and it is strictly better in some cost or in quality.
pub open spec fn dominates(l: PlanMetrics, r: PlanMetrics) -> bool {
    &&& l.quality is Some && r.quality is Some
    &&& no_worse(l.peak_ram, r.peak_ram)
    &&& no_worse(l.warm_ram, r.warm_ram)
    &&& no_worse(l.peak_vram, r.peak_vram)
    &&& no_worse(l.warm_vram, r.warm_vram)
    &&& no_worse(l.latency, r.latency)
    &&& no_worse(l.remote_cost, r.remote_cost)
    &&& l.quality->0 >= r.quality->0
    &&& {
        ||| better(l.peak_ram, r.peak_ram)
        ||| better(l.warm_ram, r.warm_ram)
        ||| better(l.peak_vram, r.peak_vram)
        ||| better(l.warm_vram, r.warm_vram)
        ||| better(l.latency, r.latency)
        ||| better(l.remote_cost, r.remote_cost)
        ||| l.quality->0 > r.quality->0
    }
}

/// Dominance is a strict order: no plan dominates itself, and of two plans at most one
/// dominates the other.
pub proof fn lemma_dominance_is_strict(a: PlanMetrics, b: PlanMetrics)
    ensures
        !dominates(a, a),
        dominates(a, b) ==> !dominates(b, a),
{
}

/// Decides `no_worse`.
fn figure_no_worse(a: Option<u64>, b: Option<u64>) -> (r: bool)
    ensures
        r == no_worse(a, b),
{
    match (a, b) {
        (Some(x), Some(y)) => x <= y,
        _ => false,
    }
}

/// Decides `better`.
fn figure_better(a: Option<u64>, b: Option<u64>) -> (r: bool)
    ensures
        r == better(a, b),
{
    match (a, b) {
        (Some(x), Some(y)) => x < y,
        _ => false,
    }
}

/// True when the plan using the `left` candidates dominates the plan using `right`.
pub fn plan_dominates(left: &[EngineCandidate], right: &[EngineCandidate]) -> (r: bool)
    ensures
        r == dominates(metrics_of(left@), metrics_of(right@)),
{
    let l = plan_metrics(left);
    let r = plan_metrics(right);
    let (lq, rq) = match (l.quality, r.quality) {
        (Some(lq), Some(rq)) => (lq, rq),
        _ => {
            return false;
        },
    };
    if !figure_no_worse(l.peak_ram, r.peak_ram) || !figure_no_worse(l.warm_ram, r.warm_ram)
        || !figure_no_worse(l.peak_vram, r.peak_vram) || !figure_no_worse(l.warm_vram, r.warm_vram)
        || !figure_no_worse(l.latency, r.latency) || !figure_no_worse(l.remote_cost, r.remote_cost)
        || lq < rq {
        return false;
    }
    figure_better(l.peak_ram, r.peak_ram) || figure_better(l.warm_ram, r.warm_ram) || figure_better(
        l.peak_vram,
        r.peak_vram,
    ) || figure_better(l.warm_vram, r.warm_vram) || figure_better(l.latency, r.latency)
        || figure_better(l.remote_cost, r.remote_cost) || lq > rq
}

/// The scope holds exactly the one page `id`.
pub open spec fn single_page(s: RefinementScope, id: crate::id::PageId) -> bool {
    match s {
        RefinementScope::Pages { page_ids } => page_ids@ == seq![id],
        _ => false,
    }
}

/// The scope holds exactly the one region `r`.
pub open spec fn single_region(s: RefinementScope, r: PageRegionRef) -> bool {
    match s {
        RefinementScope::Regions { regions } => regions@ == seq![r],
        _ => false,
    }
}

/// Splits a scope into singleton scopes, one per page or region, in the scope's order.
pub fn atomic_scopes(scope: &RefinementScope) -> (v: Vec<RefinementScope>)
    ensures
        match *scope {
            RefinementScope::Document => v@ == seq![RefinementScope::Document],
            RefinementScope::Pages { page_ids } => v@.len() == page_ids@.len() && forall|k: int|
                0 <= k < v@.len() ==> single_page(#[trigger] v@[k], page_ids@[k]),
            RefinementScope::Regions { regions } => v@.len() == regions@.len() && forall|k: int|
                0 <= k < v@.len() ==> single_region(#[trigger] v@[k], regions@[k]),
        },
{
    let mut v: Vec<RefinementScope> = Vec::new();
    match scope {
        RefinementScope::Document => {
            v.push(RefinementScope::Document);
        },
        RefinementScope::Pages { page_ids } => {
            let mut k: usize = 0;
            while k < page_ids.len()
                invariant
                    k <= page_ids@.len(),
                    v@.len() == k,
                    forall|q: int|
                        0 <= q < k ==> single_page(#[trigger] v@[q], page_ids@[q]),
                decreases page_ids@.len() - k,
            {
                let id = page_ids[k].clone();
                let mut one: Vec<crate::id::PageId> = Vec::new();
                one.push(id);
                assert(one@ =~= seq![page_ids@[k as int]]);
                v.push(RefinementScope::Pages { page_ids: one });
                assert(single_page(v@[k as int], page_ids@[k as int]));
                k = k + 1;
            }
        },
        RefinementScope::Regions { regions } => {
            let mut k: usize = 0;
            while k < regions.len()
                invariant
                    k <= regions@.len(),
                    v@.len() == k,
                    forall|q: int|
                        0 <= q < k ==> single_region(#[trigger] v@[q], regions@[q]),
                decreases regions@.len() - k,
            {
                let target = PageRegionRef {
                    page_id: regions[k].page_id.clone(),
                    region_id: regions[k].region_id.clone(),
                };
                let mut one: Vec<PageRegionRef> = Vec::new();
                one.push(target);
                assert(one@ =~= seq![regions@[k as int]]);
                v.push(RefinementScope::Regions { regions: one });
                assert(single_region(v@[k as int], regions@[k as int]));
                k = k + 1;
            }
        },
    }
    v
}

/// Plan `i` is dominated by another plan of the list.
pub open spec fn dominated(plans: Seq<Vec<EngineCandidate>>, i: int) -> bool {
    exists|j: int|
        0 <= j < plans.len() && j != i && dominates(
            metrics_of(plans[j]@),
            metrics_of(#[trigger] plans[i]@),
        )
}

/// The positions of the plans no other plan dominates, in list order.
pub fn pareto_front(plans: &Vec<Vec<EngineCandidate>>) -> (r: Vec<usize>)
    ensures
        forall|a: int, b: int| 0 <= a < b < r@.len() ==> r@[a] < r@[b],
        forall|k: int| 0 <= k < r@.len() ==> (#[trigger] r@[k]) < plans@.len(),
        forall|i: int|
            0 <= i < plans@.len() ==> (r@.contains(i as usize) <==> !dominated(plans@, i)),
{
    let mut r: Vec<usize> = Vec::new();
    let mut i: usize = 0;
    while i < plans.len()
        invariant
            i <= plans@.len(),
            forall|a: int, b: int| 0 <= a < b < r@.len() ==> r@[a] < r@[b],
            forall|k: int| 0 <= k < r@.len() ==> (#[trigger] r@[k]) < i,
            forall|q: int| 0 <= q < i ==> (r@.contains(q as usize) <==> !dominated(plans@, q)),
        decreases plans@.len() - i,
    {
        let mut beaten = false;
        let mut j: usize = 0;
        while j < plans.len()
            invariant
                i < plans@.len(),
                j <= plans@.len(),
                beaten <==> exists|q: int|
                    0 <= q < j && q != i && dominates(
                        metrics_of(plans@[q]@),
                        metrics_of(plans@[i as int]@),
                    ),
            decreases plans@.len() - j,
        {
            if j != i && plan_dominates(plans[j].as_slice(), plans[i].as_slice()) {
                beaten = true;
            }
            j = j + 1;
        }
        let ghost before = r@;
        if !beaten {
            r.push(i);
        }
        proof {
            assert forall|q: int| 0 <= q < i + 1 implies (r@.contains(q as usize) <==> !dominated(
                plans@,
                q,
            )) by {
                if q < i {
                    if before.contains(q as usize) {
                        let w = choose|w: int| 0 <= w < before.len() && before[w] == q as usize;
                        assert(r@[w] == q as usize);
                    }
                    if r@.contains(q as usize) {
                        let w = choose|w: int| 0 <= w < r@.len() && r@[w] == q as usize;
                        if w < before.len() {
                            assert(before[w] == q as usize);
                        }
                    }
                } else {
                    if !beaten {
                        assert(r@[before.len() as int] == i);
                    } else {
                        assert(!r@.contains(i)) by {
                            if r@.contains(i) {
                                let w = choose|w: int| 0 <= w < r@.len() && r@[w] == i;
                                assert(before[w] < i);
                            }
                        }
                    }
                }
            }
        }
        i = i + 1;
    }
    r
}

/// Each prefix in order, extended by each alternative index below `n` in order.
pub open spec fn extend_each(prefixes: Seq<Seq<usize>>, n: nat) -> Seq<Seq<usize>> {
    Seq::new(prefixes.len() * n, |k: int| prefixes[k / n as int].push((k % n as int) as usize))
}

/// At most the first `MAX_PARETO_PLANS` entries of a list.
pub open spec fn capped(s: Seq<Seq<usize>>) -> Seq<Seq<usize>> {
    if s.len() > MAX_PARETO_PLANS {
        s.take(MAX_PARETO_PLANS as int)
    } else {
        s
    }
}

/// The ways of choosing one alternative per goal, given how many alternatives each goal
/// has, as index lists in lexicographic order; after each goal only the first
/// `MAX_PARETO_PLANS` ways are kept.
pub open spec fn combinations(counts: Seq<usize>) -> Seq<Seq<usize>>
    decreases counts.len(),
{
    if counts.len() == 0 {
        seq![Seq::empty()]
    } else {
        capped(extend_each(combinations(counts.drop_last()), counts.last() as nat))
    }
}

/// The index of prefix and alternative behind one position of `extend_each`.
proof fn lemma_extend_position(len: nat, n: nat, t: int)
    requires
        0 <= t < len * n,
    ensures
        n > 0,
        0 <= t / (n as int) < len,
        0 <= t % (n as int) < n,
{
    if n == 0 {
        assert(len * n == 0) by (nonlinear_arith)
            requires
                n == 0,
        ;
    }
    vstd::arithmetic::div_mod::lemma_fundamental_div_mod(t, n as int);
    let q = t / (n as int);
    let m = t % (n as int);
    assert(0 <= m < n) by {
        vstd::arithmetic::div_mod::lemma_mod_bound(t, n as int);
    }
    assert(0 <= q < len) by (nonlinear_arith)
        requires
            t == n * q + m,
            0 <= m < n,
            0 <= t < len * n,
    ;
}

/// Every combination picks, for each goal in order, one of that goal's alternatives, and
/// no more than `MAX_PARETO_PLANS` combinations are kept.
pub proof fn lemma_combinations_pick_one_per_goal(counts: Seq<usize>)
    ensures
        combinations(counts).len() <= MAX_PARETO_PLANS,
        forall|k: int|
            #![trigger combinations(counts)[k]]
            0 <= k < combinations(counts).len() ==> {
                &&& combinations(counts)[k].len() == counts.len()
                &&& forall|g: int| 0 <= g < counts.len() ==> combinations(counts)[k][g] < counts[g]
            },
    decreases counts.len(),
{
    if counts.len() > 0 {
        let prev = combinations(counts.drop_last());
        let n = counts.last() as nat;
        lemma_combinations_pick_one_per_goal(counts.drop_last());
        let all = extend_each(prev, n);
        assert forall|k: int| 0 <= k < combinations(counts).len() implies {
            &&& combinations(counts)[k].len() == counts.len()
            &&& forall|g: int| 0 <= g < counts.len() ==> combinations(counts)[k][g] < counts[g]
        } by {
            assert(combinations(counts)[k] == all[k]);
            lemma_extend_position(prev.len(), n, k);
            let p = prev[k / n as int];
            assert(all[k] == p.push((k % n as int) as usize));
            assert forall|g: int| 0 <= g < counts.len() implies combinations(counts)[k][g] < counts[g] by {
                if g < counts.len() - 1 {
                    assert(counts.drop_last()[g] == counts[g]);
                }
            }
        }
    }
}

/// A copy of an index list.
fn copy_indexes(v: &Vec<usize>) -> (r: Vec<usize>)
    ensures
        r@ == v@,
{
    let mut r: Vec<usize> = Vec::new();
    let mut i: usize = 0;
    while i < v.len()
        invariant
            i <= v@.len(),
            r@ == v@.take(i as int),
        decreases v@.len() - i,
    {
        r.push(v[i]);
        assert(v@.take(i + 1) == v@.take(i as int).push(v@[i as int]));
        i = i + 1;
    }
    assert(v@.take(i as int) == v@);
    r
}

/// The combinations of alternatives, one per goal, that a plan may take: index lists in
/// lexicographic order, truncated to `MAX_PARETO_PLANS` after each goal.
pub fn plan_combinations(counts: &Vec<usize>) -> (r: Vec<Vec<usize>>)
    ensures
        r@.len() == combinations(counts@).len(),
        forall|k: int| 0 <= k < r@.len() ==> (#[trigger] r@[k])@ == combinations(counts@)[k],
{
    let mut combos: Vec<Vec<usize>> = Vec::new();
    combos.push(Vec::new());
    proof {
        assert(counts@.take(0) == Seq::<usize>::empty());
        assert(combos@[0]@ == Seq::<usize>::empty());
    }
    let mut g: usize = 0;
    while g < counts.len()
        invariant
            g <= counts@.len(),
            combos@.len() == combinations(counts@.take(g as int)).len(),
            combos@.len() <= MAX_PARETO_PLANS,
            forall|k: int|
                0 <= k < combos@.len() ==> (#[trigger] combos@[k])@ == combinations(
                    counts@.take(g as int),
                )[k],
        decreases counts@.len() - g,
    {
        let n = counts[g];
        let ghost prev = combinations(counts@.take(g as int));
        let ghost all = extend_each(prev, n as nat);
        let len = combos.len();
        assert((len as int) * (n as int) <= 64 * (n as int)) by (nonlinear_arith)
            requires
                len <= 64,
                n >= 0,
        ;
        let product: u128 = (len as u128) * (n as u128);
        let total: usize = if product > 64 {
            MAX_PARETO_PLANS
        } else {
            product as usize
        };
        assert(total == capped(all).len());
        let mut next: Vec<Vec<usize>> = Vec::new();
        let mut t: usize = 0;
        while t < total
            invariant
                g < counts@.len(),
                n == counts@[g as int],
                len == combos@.len(),
                prev.len() == len,
                all == extend_each(prev, n as nat),
                all.len() == len * n,
                total <= all.len(),
                forall|k: int| 0 <= k < combos@.len() ==> (#[trigger] combos@[k])@ == prev[k],
                t <= total,
                next@.len() == t,
                forall|q: int| 0 <= q < t ==> (#[trigger] next@[q])@ == all[q],
            decreases total - t,
        {
            proof {
                lemma_extend_position(len as nat, n as nat, t as int);
            }
            let i = t / n;
            let j = t % n;
            let mut one = copy_indexes(&combos[i]);
            one.push(j);
            assert(one@ == all[t as int]);
            next.push(one);
            t = t + 1;
        }
        proof {
            assert(counts@.take(g + 1).drop_last() == counts@.take(g as int));
            assert(counts@.take(g + 1).last() == n);
            assert(combinations(counts@.take(g + 1)) == capped(all));
        }
        combos = next;
        g = g + 1;
    }
    assert(counts@.take(counts@.len() as int) == counts@);
    combos
}

/// How many alternatives each goal has.
pub open spec fn alternative_counts(choices: Seq<Vec<EngineCandidate>>) -> Seq<usize> {
    Seq::new(choices.len(), |g: int| choices[g]@.len() as usize)
}

/// The candidates a combination selects, one per goal in goal order.
pub open spec fn chosen_candidates(choices: Seq<Vec<EngineCandidate>>, combo: Seq<usize>) -> Seq<
    EngineCandidate,
> {
    Seq::new(combo.len(), |g: int| choices[g]@[combo[g] as int])
}

/// The candidate plans of every kept combination, in combination order.
pub open spec fn combination_plans(choices: Seq<Vec<EngineCandidate>>) -> Seq<Seq<EngineCandidate>> {
    let cs = combinations(alternative_counts(choices));
    Seq::new(cs.len(), |k: int| chosen_candidates(choices, cs[k]))
}

/// Plan `i` of the list is dominated by another plan of the list.
pub open spec fn dominated_plan(plans: Seq<Seq<EngineCandidate>>, i: int) -> bool {
    exists|j: int|
        0 <= j < plans.len() && j != i && dominates(
            metrics_of(plans[j]),
            metrics_of(#[trigger] plans[i]),
        )
}

/// `pos` lists, in increasing order, exactly the positions of the kept combinations whose
/// plans no other kept combination's plan dominates.
pub open spec fn frontier_positions(choices: Seq<Vec<EngineCandidate>>, pos: Seq<usize>) -> bool {
    let cs = combinations(alternative_counts(choices));
    &&& forall|a: int, b: int| 0 <= a < b < pos.len() ==> pos[a] < pos[b]
    &&& forall|k: int| 0 <= k < pos.len() ==> #[trigger] pos[k] < cs.len()
    &&& forall|i: int|
        0 <= i < cs.len() ==> (pos.contains(i as usize) <==> !dominated_plan(
            combination_plans(choices),
            i,
        ))
}

/// The nondominated plans over the kept combinations of per-goal alternatives, given each
/// goal's admissible candidates in order: their combinations, in combination order.
pub fn plan_frontier(choices: &Vec<Vec<EngineCandidate>>) -> (r: Vec<Vec<usize>>)
    ensures
        exists|pos: Seq<usize>|
            {
                &&& #[trigger] frontier_positions(choices@, pos)
                &&& pos.len() == r@.len()
                &&& forall|k: int|
                    0 <= k < pos.len() ==> (#[trigger] r@[k])@ == combinations(
                        alternative_counts(choices@),
                    )[pos[k] as int]
            },
{
    let mut counts: Vec<usize> = Vec::new();
    let mut g: usize = 0;
    while g < choices.len()
        invariant
            g <= choices@.len(),
            counts@ == alternative_counts(choices@).take(g as int),
        decreases choices@.len() - g,
    {
        counts.push(choices[g].len());
        assert(counts@ == alternative_counts(choices@).take(g + 1));
        g = g + 1;
    }
    assert(counts@ == alternative_counts(choices@));
    let combos = plan_combinations(&counts);
    let ghost cs = combinations(counts@);
    let ghost specs = combination_plans(choices@);
    proof {
        lemma_combinations_pick_one_per_goal(counts@);
    }
    let mut plans: Vec<Vec<EngineCandidate>> = Vec::new();
    let mut k: usize = 0;
    while k < combos.len()
        invariant
            counts@ == alternative_counts(choices@),
            cs == combinations(counts@),
            specs == combination_plans(choices@),
            combos@.len() == cs.len(),
            forall|q: int| 0 <= q < combos@.len() ==> (#[trigger] combos@[q])@ == cs[q],
            forall|q: int|
                #![trigger cs[q]]
                0 <= q < cs.len() ==> {
                    &&& cs[q].len() == counts@.len()
                    &&& forall|h: int| 0 <= h < counts@.len() ==> cs[q][h] < counts@[h]
                },
            k <= combos@.len(),
            plans@.len() == k,
            forall|q: int| 0 <= q < k ==> (#[trigger] plans@[q])@ == specs[q],
        decreases combos@.len() - k,
    {
        let combo = &combos[k];
        assert(combo@ == cs[k as int]);
        let mut plan: Vec<EngineCandidate> = Vec::new();
        let mut h: usize = 0;
        while h < combo.len()
            invariant
                counts@ == alternative_counts(choices@),
                combo@ == cs[k as int],
                combo@.len() == counts@.len(),
                forall|e: int| 0 <= e < counts@.len() ==> combo@[e] < counts@[e],
                h <= combo@.len(),
                plan@ == chosen_candidates(choices@, combo@).take(h as int),
            decreases combo@.len() - h,
        {
            assert(counts@.len() == choices@.len());
            let row = &choices[h];
            let row_len = row.len();
            assert(row@.len() == row_len);
            assert(counts@[h as int] == row_len);
            let c = candidate_copy(&row[combo[h]]);
            plan.push(c);
            assert(plan@ == chosen_candidates(choices@, combo@).take(h + 1));
            h = h + 1;
        }
        assert(plan@ == chosen_candidates(choices@, combo@));
        plans.push(plan);
        k = k + 1;
    }
    let front = pareto_front(&plans);
    proof {
        assert forall|i: int| 0 <= i < plans@.len() implies (dominated(plans@, i) <==> dominated_plan(specs, i)) by {
            if dominated(plans@, i) {
                let j = choose|j: int|
                    0 <= j < plans@.len() && j != i && dominates(
                        metrics_of(plans@[j]@),
                        metrics_of(#[trigger] plans@[i]@),
                    );
                assert(plans@[j]@ == specs[j]);
                assert(plans@[i]@ == specs[i]);
            }
            if dominated_plan(specs, i) {
                let j = choose|j: int|
                    0 <= j < specs.len() && j != i && dominates(
                        metrics_of(specs[j]),
                        metrics_of(#[trigger] specs[i]),
                    );
                assert(plans@[j]@ == specs[j]);
                assert(plans@[i]@ == specs[i]);
            }
        }
    }
    let mut r: Vec<Vec<usize>> = Vec::new();
    let mut m: usize = 0;
    while m < front.len()
        invariant
            m <= front@.len(),
            forall|q: int| 0 <= q < front@.len() ==> (#[trigger] front@[q]) < plans@.len(),
            plans@.len() == combos@.len(),
            forall|q: int| 0 <= q < combos@.len() ==> (#[trigger] combos@[q])@ == cs[q],
            r@.len() == m,
            forall|q: int| 0 <= q < m ==> (#[trigger] r@[q])@ == cs[front@[q] as int],
        decreases front@.len() - m,
    {
        r.push(copy_indexes(&combos[front[m]]));
        m = m + 1;
    }
    assert(front@.len() == r@.len());
    assert(frontier_positions(choices@, front@));
    r
}

/// A state-aware progressive execution request.
#[derive(Debug, Clone, PartialEq)]
pub struct EnrichmentRequest {
    /// Observational correlation identity. It does not enter evidence identity.
    pub request_id: RequestId,
    /// Exact immutable source bytes exposed through the scoped-blob boundary.
    pub source: ScopedBlob,
    /// Pinned logical base state.
    pub input_state_id: DocumentStateId,
    /// Nonempty capability goals.
    pub goals: Vec<CapabilityGoal>,
}

/// The request, its source blob, the materialized document and the base state agree: the
/// request names the state, has goals, and expects the state's source digest, which is
/// the document's input digest, under the document's schema.
pub open spec fn request_agrees(
    request: EnrichmentRequest,
    document: Document,
    manifest: DocumentStateManifest,
    state_id: DocumentStateId,
) -> bool {
    &&& request.goals@.len() > 0
    &&& request.input_state_id@ == state_id@
    &&& manifest.source_pdf_sha256 == document.input_digest
    &&& manifest.ir_schema == document.schema_version
    &&& request.source.expected_digest == Some(manifest.source_pdf_sha256)
}

/// The first goal whose scope does not resolve in the document, with its fault.
pub open spec fn goal_fault(goals: Seq<CapabilityGoal>, document: Document, n: nat) -> Option<Seq<char>>
    decreases n,
{
    if n == 0 {
        None
    } else {
        match goal_fault(goals, document, (n - 1) as nat) {
            Some(m) => Some(m),
            None => scope_fault(goals[n - 1].scope, document),
        }
    }
}

/// Checks a request against the pinned base state before planning or execution.
///
/// `state_id` is the manifest's logical identity, derived by the caller from the
/// manifest's canonical projection. A manifest of another state schema is refused as IR;
/// a disagreement between request, source, document and state, or a goal scope that does
/// not resolve, is refused as an invalid enrichment.
pub fn validate_request(
    request: &EnrichmentRequest,
    document: &Document,
    manifest: &DocumentStateManifest,
    state_id: &DocumentStateId,
) -> (r: Result<(), RuntimeError>)
    ensures
        r is Ok <==> manifest.state_schema@ == DOCUMENT_STATE_SCHEMA@ && request_agrees(
            *request,
            *document,
            *manifest,
            *state_id,
        ) && goal_fault(request.goals@, *document, request.goals@.len()) is None,
        manifest.state_schema@ != DOCUMENT_STATE_SCHEMA@ ==> (r matches Err(RuntimeError::Ir(
            IrError::Invalid(m),
        )) && m@ == "unsupported document-state schema"@),
        manifest.state_schema@ == DOCUMENT_STATE_SCHEMA@ && !request_agrees(
            *request,
            *document,
            *manifest,
            *state_id,
        ) ==> (r matches Err(RuntimeError::InvalidEnrichment(m))
            && m@ == "request, source blob, materialized document, and base state do not agree"@),
        manifest.state_schema@ == DOCUMENT_STATE_SCHEMA@ && request_agrees(
            *request,
            *document,
            *manifest,
            *state_id,
        ) && goal_fault(request.goals@, *document, request.goals@.len()) is Some ==> (r matches Err(
            RuntimeError::InvalidEnrichment(m),
        ) && Some(m@) == goal_fault(request.goals@, *document, request.goals@.len())),
{
    if !role_is(&manifest.state_schema, DOCUMENT_STATE_SCHEMA) {
        return Err(RuntimeError::Ir(IrError::Invalid(owned("unsupported document-state schema"))));
    }
    let expected_matches = match &request.source.expected_digest {
        Some(d) => d.same_as(&manifest.source_pdf_sha256),
        None => false,
    };
    if request.goals.len() == 0 || !request.input_state_id.same_as(state_id)
        || !manifest.source_pdf_sha256.same_as(&document.input_digest)
        || manifest.ir_schema.major != document.schema_version.major
        || manifest.ir_schema.minor != document.schema_version.minor || !expected_matches {
        return Err(
            enrichment_error("request, source blob, materialized document, and base state do not agree"),
        );
    }
    let mut k: usize = 0;
    while k < request.goals.len()
        invariant
            manifest.state_schema@ == DOCUMENT_STATE_SCHEMA@,
            request_agrees(*request, *document, *manifest, *state_id),
            k <= request.goals@.len(),
            goal_fault(request.goals@, *document, k as nat) is None,
        decreases request.goals@.len() - k,
    {
        match validate_scope(&request.goals[k].scope, document) {
            Ok(()) => {},
            Err(e) => {
                proof {
                    lemma_goal_fault_sticks(request.goals@, *document, (k + 1) as nat, request.goals@.len());
                }
                return Err(e);
            },
        }
        k = k + 1;
    }
    Ok(())
}

/// Once a prefix of goals holds a fault, longer prefixes agree.
proof fn lemma_goal_fault_sticks(goals: Seq<CapabilityGoal>, document: Document, i: nat, n: nat)
    requires
        i <= n,
        goal_fault(goals, document, i) is Some,
    ensures
        goal_fault(goals, document, n) == goal_fault(goals, document, i),
    decreases n - i,
{
    if i < n {
        lemma_goal_fault_sticks(goals, document, i, (n - 1) as nat);
    }
}

/// The page identifiers a scope names, in order: none for the whole document, and the
/// containing page of each region target.
pub open spec fn scope_page_ids(scope: RefinementScope) -> Seq<Seq<char>> {
    match scope {
        RefinementScope::Document => Seq::empty(),
        RefinementScope::Pages { page_ids } => Seq::new(page_ids@.len(), |k: int| page_ids@[k]@),
        RefinementScope::Regions { regions } => Seq::new(
            regions@.len(),
            |k: int| regions@[k].page_id@,
        ),
    }
}

/// `id` is one of `ids` and none of them comes before it in text order.
pub open spec fn least_text(ids: Seq<Seq<char>>, id: Seq<char>) -> bool {
    &&& ids.contains(id)
    &&& forall|k: int| 0 <= k < ids.len() ==> !text_before(#[trigger] ids[k], id)
}

/// A list has at most one least text.
pub proof fn lemma_least_text_unique(ids: Seq<Seq<char>>, a: Seq<char>, b: Seq<char>)
    requires
        least_text(ids, a),
        least_text(ids, b),
    ensures
        a == b,
{
    if a != b {
        let i = choose|i: int| 0 <= i < ids.len() && ids[i] == a;
        let j = choose|j: int| 0 <= j < ids.len() && ids[j] == b;
        assert(!text_before(ids[i], b));
        assert(!text_before(ids[j], a));
        lemma_text_total(a, b);
    }
}

/// The index of the page a scope starts on: none for a scope without pages; otherwise
/// the index of the page whose identifier is the least the scope names, which the
/// document must hold.
pub fn scope_page_index(scope: &RefinementScope, document: &Document) -> (r: Result<
    Option<u32>,
    RuntimeError,
>)
    ensures
        scope_page_ids(*scope).len() == 0 ==> r == Ok::<Option<u32>, RuntimeError>(None),
        scope_page_ids(*scope).len() > 0 ==> exists|id: Seq<char>|
            #[trigger] least_text(scope_page_ids(*scope), id) && match page_position(
                document.pages@,
                id,
                document.pages@.len(),
            ) {
                Some(p) => r == Ok::<Option<u32>, RuntimeError>(Some(document.pages@[p].index)),
                None => (r matches Err(RuntimeError::InvalidEnrichment(m)) && m@
                    == "scope page is absent"@),
            },
{
    let ghost ids = scope_page_ids(*scope);
    let n: usize = match scope {
        RefinementScope::Document => 0,
        RefinementScope::Pages { page_ids } => page_ids.len(),
        RefinementScope::Regions { regions } => regions.len(),
    };
    assert(n == ids.len());
    if n == 0 {
        return Ok(None);
    }
    let mut best: usize = 0;
    let mut best_chars: Vec<char> = scope_page_chars(scope, 0);
    proof {
        lemma_text_irreflexive(ids[0]);
    }
    let mut k: usize = 1;
    while k < n
        invariant
            ids == scope_page_ids(*scope),
            n == ids.len(),
            1 <= k <= n,
            best < k,
            best_chars@ == ids[best as int],
            forall|q: int| 0 <= q < k ==> !text_before(#[trigger] ids[q], ids[best as int]),
        decreases n - k,
    {
        let candidate = scope_page_chars(scope, k);
        if text_precedes(&candidate, &best_chars) {
            proof {
                assert forall|q: int| 0 <= q < k + 1 implies !text_before(
                    #[trigger] ids[q],
                    ids[k as int],
                ) by {
                    if q < k && text_before(ids[q], ids[k as int]) {
                        lemma_text_transitive(ids[q], ids[k as int], ids[best as int]);
                    }
                    if q == k {
                        lemma_text_irreflexive(ids[k as int]);
                    }
                }
            }
            best = k;
            best_chars = candidate;
        }
        k = k + 1;
    }
    assert(least_text(ids, ids[best as int]));
    let found = match scope {
        RefinementScope::Pages { page_ids } => find_page(&document.pages, &page_ids[best]),
        RefinementScope::Regions { regions } => find_page(&document.pages, &regions[best].page_id),
        RefinementScope::Document => None,
    };
    proof {
        lemma_page_position_found(document.pages@, ids[best as int], document.pages@.len());
    }
    match found {
        Some(p) => Ok(Some(document.pages[p].index)),
        None => Err(enrichment_error("scope page is absent")),
    }
}

/// The characters of the `k`-th page identifier a scope names.
fn scope_page_chars(scope: &RefinementScope, k: usize) -> (v: Vec<char>)
    requires
        k < scope_page_ids(*scope).len(),
    ensures
        v@ == scope_page_ids(*scope)[k as int],
{
    match scope {
        RefinementScope::Pages { page_ids } => chars_of(page_ids[k].as_str()),
        RefinementScope::Regions { regions } => chars_of(regions[k].page_id.as_str()),
        RefinementScope::Document => Vec::new(),
    }
}

} // verus!
