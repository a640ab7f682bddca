//! Immutable evidence deltas and content-identifiable document states.
//!
//! Collections that are canonical sets (page IDs, regions, evidence and delta IDs) are
//! held as vectors; the rules below never depend on their order.

use std::collections::BTreeSet;

use vstd::prelude::*;

use crate::canonical::{owned, Capability};
use crate::digest::Sha256Digest;
use crate::id::{ArtifactId, DocumentStateId, EvidenceDeltaId, EvidenceId, PageId, RegionId};
use crate::ir::{
    Document, Evidence, IrError, Page, ReadingOrderEdge, Region, RenderArtifact, SelectedView,
    SourceLayer,
};
use crate::manifest::is_blank;
use crate::provenance::Stage;
use crate::research::role_is;
use crate::schema::SchemaVersion;
use crate::text::trim;

verus! {

/// Persistent evidence-delta schema.
pub const EVIDENCE_DELTA_SCHEMA: &'static str = "ferrodoc-evidence-delta/1";

/// Persistent document-state schema.
pub const DOCUMENT_STATE_SCHEMA: &'static str = "ferrodoc-document-state/1";

/// Deterministic producer identity for one refinement.
#[derive(Debug, Clone, PartialEq, Eq)]
pub struct DeltaProducer {
    /// Producer name.
    pub name: String,
    /// Producer semantic version.
    pub version: String,
    /// Immutable source/build identity.
    pub build: Sha256Digest,
    /// Optional model identity.
    pub model_digest: Option<Sha256Digest>,
    /// Normalized configuration identity.
    pub configuration_digest: Sha256Digest,
}

/// A page-qualified region address. Region IDs are only page-local.
#[derive(Debug, Clone, PartialEq, Eq)]
pub struct PageRegionRef {
    /// Containing page.
    pub page_id: PageId,
    /// Page-local region.
    pub region_id: RegionId,
}

/// Scope actually processed by a refinement.
#[derive(Debug, Clone, PartialEq, Eq)]
pub enum RefinementScope {
    /// Whole document.
    Document,
    /// Explicit pages.
    Pages {
        /// The pages, as a set.
        page_ids: Vec<PageId>,
    },
    /// Explicit page-qualified regions.
    Regions {
        /// The regions, as a set.
        regions: Vec<PageRegionRef>,
    },
}

/// Owner of a source layer added to a page.
#[derive(Debug, Clone, PartialEq, Eq)]
pub enum LayerOwner {
    /// Layer describes the entire containing page.
    Page {
        /// The page.
        page_id: PageId,
    },
    /// Layer was produced for one page-qualified region.
    Region {
        /// The containing page.
        page_id: PageId,
        /// The page-local region.
        region_id: RegionId,
    },
}

/// A source layer with explicit page/region ownership.
#[derive(Debug, Clone, PartialEq, Eq)]
pub struct OwnedSourceLayer {
    /// Explicit owner.
    pub owner: LayerOwner,
    /// Immutable layer.
    pub layer: SourceLayer,
}

/// Evidence appended to one page-qualified region.
#[derive(Debug, Clone, PartialEq, Eq)]
pub struct RegionEvidenceAddition {
    /// Page-local region receiving the evidence.
    pub region_id: RegionId,
    /// Append-only evidence records.
    pub evidence: Vec<Evidence>,
}

/// Reconciliation input for a page-qualified region.
#[derive(Debug, Clone, PartialEq, Eq)]
pub struct SelectionHint {
    /// Region receiving the hint.
    pub region: PageRegionRef,
    /// Proposed deterministic selected view.
    pub selected: SelectedView,
}

/// Deterministic diagnostic retained with a delta.
#[derive(Debug, Clone, PartialEq, Eq)]
pub struct DeltaDiagnostic {
    /// Machine-readable diagnostic code.
    pub code: String,
    /// Bounded deterministic message.
    pub message: String,
}

/// One logical capability coverage observation.
#[derive(Debug, Clone, PartialEq, Eq)]
pub struct CoverageEntry {
    /// Capability covered.
    pub capability: Capability,
    /// Scope of the observation.
    pub scope: RefinementScope,
    /// Deterministic coverage status or qualifier.
    pub status: String,
}

/// Additions owned by one existing page.
#[derive(Debug, Clone, PartialEq, Eq)]
pub struct PageDelta {
    /// Existing page receiving additions.
    pub page_id: PageId,
    /// Page- or region-owned source layers.
    pub source_layers: Vec<OwnedSourceLayer>,
    /// Page-owned render artifacts.
    pub render_artifacts: Vec<RenderArtifact>,
    /// New page-owned semantic regions.
    pub regions: Vec<Region>,
    /// Evidence additions grouped by their page-qualified region owner.
    pub region_evidence: Vec<RegionEvidenceAddition>,
    /// Page-owned reading-order edges.
    pub reading_order_edges: Vec<ReadingOrderEdge>,
}

/// Immutable append-only evidence produced by one deterministic refinement.
#[derive(Debug, Clone, PartialEq, Eq)]
pub struct EvidenceDelta {
    /// Persistent delta schema tag.
    pub delta_schema: String,
    /// Exact source PDF identity.
    pub source_pdf_sha256: Sha256Digest,
    /// Document IR schema interpreted by this delta.
    pub ir_schema: SchemaVersion,
    /// Logical pipeline stage.
    pub stage: Stage,
    /// Deterministic producer identity.
    pub producer: DeltaProducer,
    /// Scope actually processed.
    pub scope: RefinementScope,
    /// Optional state against which execution was planned. This is a precondition, not state lineage.
    pub input_state_id: Option<DocumentStateId>,
    /// Exact evidence prerequisites, as a set.
    pub required_evidence_ids: Vec<EvidenceId>,
    /// Entire new pages, used by survey/baseline deltas.
    pub new_pages: Vec<Page>,
    /// Additions to existing pages.
    pub page_additions: Vec<PageDelta>,
    /// Deterministic reconciliation inputs.
    pub selection_hints: Vec<SelectionHint>,
    /// Deterministic diagnostics.
    pub diagnostics: Vec<DeltaDiagnostic>,
    /// Additive coverage observations.
    pub coverage_delta: Vec<CoverageEntry>,
}

/// The text is empty once surrounding whitespace is removed.
pub open spec fn blank(s: Seq<char>) -> bool {
    trim(s).len() == 0
}

/// The message of the first envelope rule a delta breaks, if any: its schema tag, a
/// nonblank producer name and version, diagnostic codes and coverage statuses, and
/// distinct new pages and page additions.
pub open spec fn envelope_fault(d: EvidenceDelta) -> Option<Seq<char>> {
    if d.delta_schema@ != EVIDENCE_DELTA_SCHEMA@ {
        Some("unsupported evidence-delta schema"@)
    } else if blank(d.producer.name@) || blank(d.producer.version@) || (exists|i: int|
        0 <= i < d.diagnostics@.len() && blank(#[trigger] d.diagnostics@[i].code@)) || (exists|i: int|
        0 <= i < d.coverage_delta@.len() && blank(#[trigger] d.coverage_delta@[i].status@)) {
        Some("delta producer, diagnostic, or coverage identity is empty"@)
    } else if exists|i: int, j: int|
        0 <= i < j < d.new_pages@.len() && (#[trigger] d.new_pages@[i]).id@ == (
        #[trigger] d.new_pages@[j]).id@ {
        Some("delta contains duplicate new pages"@)
    } else if exists|i: int, j: int|
        0 <= i < j < d.page_additions@.len() && (#[trigger] d.page_additions@[i]).page_id@ == (
        #[trigger] d.page_additions@[j]).page_id@ {
        Some("delta contains duplicate page additions"@)
    } else {
        None
    }
}

/// The invalid-delta error carrying `message`.
fn invalid(message: &str) -> (e: IrError)
    ensures
        e == IrError::Invalid(e->Invalid_0),
        e->Invalid_0@ == message@,
{
    IrError::Invalid(owned(message))
}

impl EvidenceDelta {
    /// Validates the persistent envelope.
    pub fn validate_envelope(&self) -> (r: Result<(), IrError>)
        ensures
            r is Ok <==> envelope_fault(*self) is None,
            r matches Err(IrError::Invalid(m)) ==> Some(m@) == envelope_fault(*self),
    {
        if !role_is(&self.delta_schema, EVIDENCE_DELTA_SCHEMA) {
            return Err(invalid("unsupported evidence-delta schema"));
        }
        let mut empty = is_blank(self.producer.name.as_str()) || is_blank(
            self.producer.version.as_str(),
        );
        let mut i: usize = 0;
        while i < self.diagnostics.len()
            invariant
                i <= self.diagnostics@.len(),
                empty == (blank(self.producer.name@) || blank(self.producer.version@) || exists|k: int|
                    0 <= k < i && blank(#[trigger] self.diagnostics@[k].code@)),
            decreases self.diagnostics@.len() - i,
        {
            if is_blank(self.diagnostics[i].code.as_str()) {
                empty = true;
            }
            i = i + 1;
        }
        let mut i: usize = 0;
        while i < self.coverage_delta.len()
            invariant
                i <= self.coverage_delta@.len(),
                empty == (blank(self.producer.name@) || blank(self.producer.version@) || (exists|k: int|
                    0 <= k < self.diagnostics@.len() && blank(#[trigger] self.diagnostics@[k].code@))
                    || exists|k: int|
                    0 <= k < i && blank(#[trigger] self.coverage_delta@[k].status@)),
            decreases self.coverage_delta@.len() - i,
        {
            if is_blank(self.coverage_delta[i].status.as_str()) {
                empty = true;
            }
            i = i + 1;
        }
        if empty {
            return Err(invalid("delta producer, diagnostic, or coverage identity is empty"));
        }
        let pages = &self.new_pages;
        let mut i: usize = 0;
        while i < pages.len()
            invariant
                self.delta_schema@ == EVIDENCE_DELTA_SCHEMA@,
                !(blank(self.producer.name@) || blank(self.producer.version@) || (exists|k: int|
                    0 <= k < self.diagnostics@.len() && blank(#[trigger] self.diagnostics@[k].code@))
                    || exists|k: int|
                    0 <= k < self.coverage_delta@.len() && blank(#[trigger] self.coverage_delta@[k].status@)),
                pages == &self.new_pages,
                i <= pages@.len(),
                forall|a: int, b: int|
                    0 <= a < b < pages@.len() && a < i ==> (#[trigger] pages@[a]).id@ != (
                    #[trigger] pages@[b]).id@,
            decreases pages@.len() - i,
        {
            let mut j: usize = i + 1;
            while j < pages.len()
                invariant
                    self.delta_schema@ == EVIDENCE_DELTA_SCHEMA@,
                    !(blank(self.producer.name@) || blank(self.producer.version@) || (exists|k: int|
                        0 <= k < self.diagnostics@.len() && blank(#[trigger] self.diagnostics@[k].code@))
                        || exists|k: int|
                        0 <= k < self.coverage_delta@.len() && blank(#[trigger] self.coverage_delta@[k].status@)),
                    pages == &self.new_pages,
                    i < pages@.len(),
                    i + 1 <= j <= pages@.len(),
                    forall|a: int, b: int|
                        0 <= a < b < pages@.len() && a < i ==> (#[trigger] pages@[a]).id@ != (
                        #[trigger] pages@[b]).id@,
                    forall|b: int| i < b < j ==> pages@[i as int].id@ != (#[trigger] pages@[b]).id@,
                decreases pages@.len() - j,
            {
                if pages[i].id.same_as(&pages[j].id) {
                    assert((pages@[i as int]).id@ == (pages@[j as int]).id@);
                    return Err(invalid("delta contains duplicate new pages"));
                }
                j = j + 1;
            }
            i = i + 1;
        }
        let adds = &self.page_additions;
        let mut i: usize = 0;
        while i < adds.len()
            invariant
                self.delta_schema@ == EVIDENCE_DELTA_SCHEMA@,
                !(blank(self.producer.name@) || blank(self.producer.version@) || (exists|k: int|
                    0 <= k < self.diagnostics@.len() && blank(#[trigger] self.diagnostics@[k].code@))
                    || exists|k: int|
                    0 <= k < self.coverage_delta@.len() && blank(#[trigger] self.coverage_delta@[k].status@)),
                forall|a: int, b: int|
                    0 <= a < b < self.new_pages@.len() ==> (#[trigger] self.new_pages@[a]).id@ != (
                    #[trigger] self.new_pages@[b]).id@,
                adds == &self.page_additions,
                i <= adds@.len(),
                forall|a: int, b: int|
                    0 <= a < b < adds@.len() && a < i ==> (#[trigger] adds@[a]).page_id@ != (
                    #[trigger] adds@[b]).page_id@,
            decreases adds@.len() - i,
        {
            let mut j: usize = i + 1;
            while j < adds.len()
                invariant
                    self.delta_schema@ == EVIDENCE_DELTA_SCHEMA@,
                    !(blank(self.producer.name@) || blank(self.producer.version@) || (exists|k: int|
                        0 <= k < self.diagnostics@.len() && blank(#[trigger] self.diagnostics@[k].code@))
                        || exists|k: int|
                        0 <= k < self.coverage_delta@.len() && blank(#[trigger] self.coverage_delta@[k].status@)),
                    forall|a: int, b: int|
                        0 <= a < b < self.new_pages@.len() ==> (#[trigger] self.new_pages@[a]).id@ != (
                        #[trigger] self.new_pages@[b]).id@,
                    adds == &self.page_additions,
                    i < adds@.len(),
                    i + 1 <= j <= adds@.len(),
                    forall|a: int, b: int|
                        0 <= a < b < adds@.len() && a < i ==> (#[trigger] adds@[a]).page_id@ != (
                        #[trigger] adds@[b]).page_id@,
                    forall|b: int| i < b < j ==> adds@[i as int].page_id@ != (#[trigger] adds@[b]).page_id@,
                decreases adds@.len() - j,
            {
                if adds[i].page_id.same_as(&adds[j].page_id) {
                    assert((adds@[i as int]).page_id@ == (adds@[j as int]).page_id@);
                    return Err(invalid("delta contains duplicate page additions"));
                }
                j = j + 1;
            }
            i = i + 1;
        }
        Ok(())
    }
}

/// Optional physical checkpoint reference. It is never part of logical state identity.
#[derive(Debug, Clone, PartialEq, Eq)]
pub struct MaterializedIrCheckpoint {
    /// Digest of canonical DocumentIR JSON.
    pub document_ir_logical_sha256: Sha256Digest,
    /// Physical artifact identity.
    pub artifact_id: ArtifactId,
    /// Physical representation media type or codec label.
    pub representation: String,
}

/// Immutable manifest for one logical set of evidence.
#[derive(Debug, Clone, PartialEq, Eq)]
pub struct DocumentStateManifest {
    /// Persistent state schema tag.
    pub state_schema: String,
    /// Exact source PDF identity.
    pub source_pdf_sha256: Sha256Digest,
    /// Document IR schema interpreted by this state.
    pub ir_schema: SchemaVersion,
    /// Canonical set of evidence-delta identities.
    pub evidence_delta_ids: Vec<EvidenceDeltaId>,
    /// Deterministic reconciliation-policy identity.
    pub reconciliation_policy_id: Sha256Digest,
    /// Retained summary, excluded from logical identity.
    pub coverage: Vec<CoverageEntry>,
    /// Optional physical checkpoint, excluded from logical identity.
    pub materialized_ir_checkpoint: Option<MaterializedIrCheckpoint>,
    /// Construction/merge lineage, excluded from logical identity.
    pub parent_state_ids: Vec<DocumentStateId>,
}

/// A page-qualified refinement request against one immutable base state.
#[derive(Debug, Clone, PartialEq, Eq)]
pub struct RegionRefinementTarget {
    /// Pinned base state.
    pub base_document_state_id: DocumentStateId,
    /// Containing page.
    pub page_id: PageId,
    /// Page-local region.
    pub region_id: RegionId,
    /// Requested generic Ferrodoc capabilities.
    pub requested_capabilities: BTreeSet<Capability>,
}

/// Index of the first of the first `n` pages with identifier `id`.
pub open spec fn page_position(pages: Seq<Page>, id: Seq<char>, n: nat) -> Option<int>
    decreases n,
{
    if n == 0 {
        None
    } else {
        match page_position(pages, id, (n - 1) as nat) {
            Some(p) => Some(p),
            None => if pages[n - 1].id@ == id {
                Some(n - 1)
            } else {
                None
            },
        }
    }
}

/// The page holds a region with identifier `id`.
pub open spec fn page_has_region(page: Page, id: Seq<char>) -> bool {
    exists|r: int| 0 <= r < page.regions@.len() && (#[trigger] page.regions@[r]).id@ == id
}

/// Once a prefix holds a matching page, longer prefixes agree.
proof fn lemma_page_position_sticks(pages: Seq<Page>, id: Seq<char>, i: nat, n: nat)
    requires
        i <= n,
        page_position(pages, id, i) is Some,
    ensures
        page_position(pages, id, n) == page_position(pages, id, i),
    decreases n - i,
{
    if i < n {
        lemma_page_position_sticks(pages, id, i, (n - 1) as nat);
    }
}

/// The position a page search yields holds a page with that identifier.
pub proof fn lemma_page_position_found(pages: Seq<Page>, id: Seq<char>, n: nat)
    requires
        n <= pages.len(),
    ensures
        page_position(pages, id, n) matches Some(p) ==> 0 <= p < n && pages[p].id@ == id,
        page_position(pages, id, n) is None ==> forall|p: int|
            0 <= p < n ==> (#[trigger] pages[p]).id@ != id,
    decreases n,
{
    if n > 0 {
        lemma_page_position_found(pages, id, (n - 1) as nat);
    }
}

/// Position of the first page with identifier `id`.
pub fn find_page(pages: &Vec<Page>, id: &PageId) -> (r: Option<usize>)
    ensures
        match r {
            Some(p) => page_position(pages@, id@, pages@.len()) == Some(p as int),
            None => page_position(pages@, id@, pages@.len()) is None,
        },
{
    let mut p: usize = 0;
    while p < pages.len()
        invariant
            p <= pages@.len(),
            page_position(pages@, id@, p as nat) is None,
        decreases pages@.len() - p,
    {
        if pages[p].id.same_as(id) {
            proof {
                lemma_page_position_sticks(pages@, id@, (p + 1) as nat, pages@.len());
            }
            return Some(p);
        }
        p = p + 1;
    }
    None
}

/// True when the page holds a region with identifier `id`.
pub fn has_region(page: &Page, id: &RegionId) -> (r: bool)
    ensures
        r == page_has_region(*page, id@),
{
    let mut k: usize = 0;
    while k < page.regions.len()
        invariant
            k <= page.regions@.len(),
            forall|q: int| 0 <= q < k ==> (#[trigger] page.regions@[q]).id@ != id@,
        decreases page.regions@.len() - k,
    {
        if page.regions[k].id.same_as(id) {
            return true;
        }
        k = k + 1;
    }
    false
}

/// The message of the first rule a refinement target breaks against a state, if any:
/// the pinned base state with at least one capability, then its page, then its region
/// on the first page with that identifier.
pub open spec fn target_fault(
    t: RegionRefinementTarget,
    document: Document,
    state_id: DocumentStateId,
) -> Option<Seq<char>> {
    if t.base_document_state_id@ != state_id@ || t.requested_capabilities@.is_empty() {
        Some("refinement target has the wrong base state or no capabilities"@)
    } else {
        match page_position(document.pages@, t.page_id@, document.pages@.len()) {
            None => Some("refinement target page is absent"@),
            Some(p) => if page_has_region(document.pages@[p], t.region_id@) {
                None
            } else {
                Some("refinement target region is absent from the qualified page"@)
            },
        }
    }
}

impl RegionRefinementTarget {
    /// Proves the state and page-qualified region exist.
    pub fn validate(&self, document: &Document, state_id: &DocumentStateId) -> (r: Result<
        (),
        IrError,
    >)
        ensures
            r is Ok <==> target_fault(*self, *document, *state_id) is None,
            r matches Err(IrError::Invalid(m)) ==> Some(m@) == target_fault(
                *self,
                *document,
                *state_id,
            ),
    {
        if !self.base_document_state_id.same_as(state_id) || self.requested_capabilities.is_empty() {
            return Err(invalid("refinement target has the wrong base state or no capabilities"));
        }
        let found = find_page(&document.pages, &self.page_id);
        proof {
            lemma_page_position_found(document.pages@, self.page_id@, document.pages@.len());
        }
        match found {
            None => Err(invalid("refinement target page is absent")),
            Some(p) => {
                if has_region(&document.pages[p], &self.region_id) {
                    Ok(())
                } else {
                    Err(invalid("refinement target region is absent from the qualified page"))
                }
            },
        }
    }
}

} // verus!
