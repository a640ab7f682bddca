//! Versioned evidence graph for documents.
//!
//! Evidence is append-only: native extraction, OCR, layout, and refinement remain
//! separate records. A selected view references evidence IDs and explains the
//! reconciliation decision without deleting competing hypotheses.
//!
//! The graph here holds what validation reads. Page geometry is real-valued, so the
//! host keeps the rectangles and states, per region, what the containment check of the
//! region inside its page found; provenance and metadata payloads stay with the host too.

use vstd::prelude::*;

use crate::blob::BlobId;
use crate::canonical::{owned, MediaType};
use crate::digest::Sha256Digest;
use crate::id::{ArtifactId, DocumentId, EvidenceId, LayerId, PageId, RegionId};
use crate::order::{has_topological_order, ranks_edges, topologically_orderable};
use crate::schema::{SchemaVersion, CURRENT_SCHEMA_MAJOR};

verus! {

/// Validation error for an evidence graph.
#[derive(Debug, Clone, PartialEq, Eq)]
pub enum IrError {
    /// A graph invariant was violated.
    Invalid(String),
}

/// Provenance-bearing source layer kind.
#[derive(Debug, Clone, PartialEq, Eq)]
pub enum SourceLayerKind {
    /// Native PDF content.
    NativePdf,
    /// Rasterized source content.
    Raster,
    /// OCR hypothesis layer.
    Ocr,
    /// Layout hypothesis layer.
    Layout,
    /// Forward-compatible producer-defined kind.
    Unknown(String),
}

/// One immutable evidence-producing layer.
#[derive(Debug, Clone, PartialEq, Eq)]
pub struct SourceLayer {
    /// Stable layer identity.
    pub id: LayerId,
    /// Layer kind.
    pub kind: SourceLayerKind,
}

/// A deterministic raster or other derived artifact.
#[derive(Debug, Clone, PartialEq, Eq)]
pub struct RenderArtifact {
    /// Stable artifact identity.
    pub id: ArtifactId,
    /// Host-scoped blob token. No host path is recorded.
    pub blob_id: BlobId,
    /// Content digest.
    pub digest: Sha256Digest,
    /// Media type.
    pub media_type: MediaType,
    /// Raster width when applicable.
    pub width: Option<u32>,
    /// Raster height when applicable.
    pub height: Option<u32>,
}

/// Semantic region kind with one canonical snake-case representation.
#[derive(Debug, Clone, Copy, PartialEq, Eq, PartialOrd, Ord, Hash)]
pub enum RegionKind {
    /// Unknown or unclassified content.
    Unknown,
    /// Paragraph text.
    Paragraph,
    /// Heading text.
    Heading,
    /// List container.
    List,
    /// List item.
    ListItem,
    /// Table.
    Table,
    /// Table cell.
    TableCell,
    /// Mathematical formula.
    Formula,
    /// Figure or illustration.
    Figure,
    /// Caption.
    Caption,
    /// Source code.
    Code,
    /// Repeating page header.
    Header,
    /// Repeating page footer.
    Footer,
    /// Footnote.
    Footnote,
    /// Handwriting.
    Handwriting,
}

/// A structured table cell.
#[derive(Debug, Clone, PartialEq, Eq)]
pub struct TableCell {
    /// Zero-based row.
    pub row: u32,
    /// Zero-based column.
    pub column: u32,
    /// Number of rows occupied.
    pub row_span: u32,
    /// Number of columns occupied.
    pub column_span: u32,
    /// Cell text.
    pub text: String,
}

/// Typed evidence payload.
#[derive(Debug, Clone, PartialEq, Eq)]
pub enum EvidenceContent {
    /// Plain or styled text represented as Unicode.
    Text {
        /// Extracted text.
        text: String,
    },
    /// Structured table cells.
    Table {
        /// Row count.
        rows: u32,
        /// Column count.
        columns: u32,
        /// Cells with explicit spans.
        cells: Vec<TableCell>,
    },
    /// Mathematical formula.
    Formula {
        /// Normalized LaTeX source.
        latex: String,
    },
    /// Image reference.
    Image {
        /// Stable render artifact identity.
        artifact: ArtifactId,
        /// Optional alternative text.
        alt: Option<String>,
    },
    /// Forward-compatible payload retained without interpretation; the host keeps the
    /// producer's value itself.
    Unknown {
        /// Producer-defined media type.
        media_type: MediaType,
    },
}

/// One hypothesis produced by a source layer or engine.
#[derive(Debug, Clone, PartialEq, Eq)]
pub struct Evidence {
    /// Stable evidence identity.
    pub id: EvidenceId,
    /// Source layer that produced this evidence.
    pub layer_id: LayerId,
    /// Typed content.
    pub content: EvidenceContent,
    /// Page index of the evidence geometry, when the evidence has geometry.
    pub geometry_page: Option<u32>,
}

/// Machine-readable selection reason.
#[derive(Debug, Clone, Copy, PartialEq, Eq)]
pub enum SelectionReason {
    /// Native evidence passed the configured quality policy.
    NativeQuality,
    /// OCR was selected because native evidence was absent.
    NativeAbsent,
    /// OCR was selected because native evidence was below threshold.
    NativeBelowThreshold,
    /// Multiple records were deterministically reconciled.
    Reconciled,
    /// A caller explicitly selected evidence.
    UserOverride,
}

/// Selected view over one or more evidence records.
#[derive(Debug, Clone, PartialEq, Eq)]
pub struct SelectedView {
    /// Evidence records consumed by the selection.
    pub evidence_ids: Vec<EvidenceId>,
    /// Machine-readable reason.
    pub reason: SelectionReason,
    /// Human-readable deterministic explanation.
    pub explanation: String,
}

/// Where a region's rectangle lies relative to its page bounds, as the geometry check
/// found it.
#[derive(Debug, Clone, PartialEq, Eq)]
pub enum Placement {
    /// Inside the page bounds.
    Inside,
    /// At least partly outside the page bounds.
    Outside,
    /// Not comparable with the page bounds; the text of the geometry error.
    Incomparable(String),
}

/// A semantic page region containing competing evidence.
#[derive(Debug, Clone, PartialEq, Eq)]
pub struct Region {
    /// Stable region identity.
    pub id: RegionId,
    /// Semantic kind.
    pub kind: RegionKind,
    /// Page index of the region geometry.
    pub geometry_page: u32,
    /// What the check of the region's rectangle against the page bounds found.
    pub placement: Placement,
    /// Append-only evidence records.
    pub evidence: Vec<Evidence>,
    /// Optional selected view.
    pub selected: Option<SelectedView>,
}

/// Directed reading-order edge.
#[derive(Debug, Clone, PartialEq, Eq)]
pub struct ReadingOrderEdge {
    /// Region read first.
    pub before: RegionId,
    /// Region read next.
    pub after: RegionId,
}

/// One document page and all evidence attached to it.
#[derive(Debug, Clone, PartialEq, Eq)]
pub struct Page {
    /// Stable page identity.
    pub id: PageId,
    /// Zero-based page index.
    pub index: u32,
    /// Page index recorded in the page bounds.
    pub bounds_page: u32,
    /// Source layers in deterministic order.
    pub layers: Vec<SourceLayer>,
    /// Render artifacts in deterministic order.
    pub artifacts: Vec<RenderArtifact>,
    /// Semantic regions in deterministic order.
    pub regions: Vec<Region>,
    /// Reading-order graph edges.
    pub reading_order: Vec<ReadingOrderEdge>,
}

/// A versioned evidence graph for a document.
#[derive(Debug, Clone, PartialEq, Eq)]
pub struct Document {
    /// Persistent schema version.
    pub schema_version: SchemaVersion,
    /// Stable document identity.
    pub id: DocumentId,
    /// Original input digest.
    pub input_digest: Sha256Digest,
    /// Ordered pages.
    pub pages: Vec<Page>,
}

/// No text occurs twice.
pub open spec fn distinct(s: Seq<Seq<char>>) -> bool {
    forall|i: int, j: int| 0 <= i < j < s.len() ==> #[trigger] s[i] != #[trigger] s[j]
}

/// The texts of strings.
pub open spec fn texts(v: Seq<String>) -> Seq<Seq<char>> {
    Seq::new(v.len(), |i: int| v[i]@)
}

/// Layer IDs of a page, in order.
pub open spec fn layer_ids(p: Page) -> Seq<Seq<char>> {
    Seq::new(p.layers@.len(), |i: int| p.layers@[i].id@)
}

/// Artifact IDs of a page, in order.
pub open spec fn artifact_ids(p: Page) -> Seq<Seq<char>> {
    Seq::new(p.artifacts@.len(), |i: int| p.artifacts@[i].id@)
}

/// Region IDs of a page, in order.
pub open spec fn region_ids(p: Page) -> Seq<Seq<char>> {
    Seq::new(p.regions@.len(), |i: int| p.regions@[i].id@)
}

/// Evidence IDs of a region, in order.
pub open spec fn evidence_ids(r: Region) -> Seq<Seq<char>> {
    Seq::new(r.evidence@.len(), |i: int| r.evidence@[i].id@)
}

/// Evidence IDs of the first `r` regions of a page, in order.
pub open spec fn evidence_ids_upto(p: Page, r: int) -> Seq<Seq<char>>
    decreases r,
{
    if r <= 0 {
        Seq::empty()
    } else {
        evidence_ids_upto(p, r - 1) + evidence_ids(p.regions@[r - 1])
    }
}

/// Why evidence `e` of region `r` is refused, if it is: its ID repeats an earlier
/// evidence ID of the page, its layer is not one of the page's, its geometry is on
/// another page, or its image shows an artifact the page does not have.
pub open spec fn evidence_fault(p: Page, r: int, e: int) -> Option<Seq<char>> {
    let ev = p.regions@[r].evidence@[e];
    if (evidence_ids_upto(p, r) + evidence_ids(p.regions@[r]).take(e)).contains(ev.id@) {
        Some("duplicate evidence ID"@)
    } else if !layer_ids(p).contains(ev.layer_id@) {
        Some("evidence references an unknown layer"@)
    } else if ev.geometry_page is Some && ev.geometry_page->0 != p.index {
        Some("evidence geometry uses a different page index"@)
    } else if ev.content is Image && !artifact_ids(p).contains(ev.content->Image_artifact@) {
        Some("image evidence references an unknown artifact"@)
    } else {
        None
    }
}

/// The first refusal among the evidence of region `r` from position `e` on.
pub open spec fn evidence_fault_from(p: Page, r: int, e: int) -> Option<Seq<char>>
    decreases p.regions@[r].evidence@.len() - e,
{
    if e < 0 || e >= p.regions@[r].evidence@.len() {
        None
    } else {
        match evidence_fault(p, r, e) {
            Some(m) => Some(m),
            None => evidence_fault_from(p, r, e + 1),
        }
    }
}

/// A selected view that names no evidence, or names evidence the region lacks.
pub open spec fn selection_broken(reg: Region) -> bool {
    reg.selected matches Some(sel) && (sel.evidence_ids@.len() == 0 || exists|i: int|
        0 <= i < sel.evidence_ids@.len() && !evidence_ids(reg).contains(
            #[trigger] sel.evidence_ids@[i]@,
        ))
}

/// Why region `r` is refused, if it is: its geometry is on another page, it is not
/// inside the page bounds (or the check failed), one of its evidence records is
/// refused, or its selected view is broken.
pub open spec fn region_fault(p: Page, r: int) -> Option<Seq<char>> {
    let reg = p.regions@[r];
    if reg.geometry_page != p.index {
        Some("region geometry uses a different page index"@)
    } else {
        match reg.placement {
            Placement::Incomparable(m) => Some(m@),
            Placement::Outside => Some("region lies outside page bounds"@),
            Placement::Inside => match evidence_fault_from(p, r, 0) {
                Some(m) => Some(m),
                None => if selection_broken(reg) {
                    Some("selected view references missing evidence"@)
                } else {
                    None
                },
            },
        }
    }
}

/// The first refusal among the regions of a page from position `r` on.
pub open spec fn region_fault_from(p: Page, r: int) -> Option<Seq<char>>
    decreases p.regions@.len() - r,
{
    if r < 0 || r >= p.regions@.len() {
        None
    } else {
        match region_fault(p, r) {
            Some(m) => Some(m),
            None => region_fault_from(p, r + 1),
        }
    }
}

/// An edge that loops on one region or names a region the page lacks.
pub open spec fn edge_invalid(p: Page, k: int) -> bool {
    let e = p.reading_order@[k];
    e.before@ == e.after@ || !region_ids(p).contains(e.before@) || !region_ids(p).contains(
        e.after@,
    )
}

/// `rank` strictly increases along every reading-order edge.
pub open spec fn ranks_reading_order(edges: Seq<ReadingOrderEdge>, rank: spec_fn(Seq<char>) -> int) -> bool {
    forall|k: int|
        #![trigger edges[k]]
        0 <= k < edges.len() ==> rank(edges[k].before@) < rank(edges[k].after@)
}

/// Some ranking of region IDs increases along every reading-order edge, so reading
/// order has no cycle.
pub open spec fn reading_order_acyclic(edges: Seq<ReadingOrderEdge>) -> bool {
    exists|rank: spec_fn(Seq<char>) -> int| ranks_reading_order(edges, rank)
}

/// Why a page is refused, if it is, checking in this order: repeated layer, artifact,
/// or region IDs; the regions in order; the reading-order edges; a reading-order cycle.
pub open spec fn page_fault(p: Page) -> Option<Seq<char>> {
    if !distinct(layer_ids(p)) {
        Some("duplicate source layer ID"@)
    } else if !distinct(artifact_ids(p)) {
        Some("duplicate render artifact ID"@)
    } else if !distinct(region_ids(p)) {
        Some("duplicate region ID"@)
    } else if region_fault_from(p, 0) is Some {
        region_fault_from(p, 0)
    } else if exists|k: int| 0 <= k < p.reading_order@.len() && #[trigger] edge_invalid(p, k) {
        Some("invalid reading-order edge"@)
    } else if !reading_order_acyclic(p.reading_order@) {
        Some("reading-order graph contains a cycle"@)
    } else {
        None
    }
}

/// Page IDs of a document, in order.
pub open spec fn page_ids(d: Document) -> Seq<Seq<char>> {
    Seq::new(d.pages@.len(), |i: int| d.pages@[i].id@)
}

/// Page indexes of a document, in order.
pub open spec fn page_indexes(d: Document) -> Seq<u32> {
    Seq::new(d.pages@.len(), |i: int| d.pages@[i].index)
}

/// The first refusal among the pages of a document from position `i` on: a page ID or
/// index seen before, bounds on another page, or the page's own refusal.
pub open spec fn page_fault_from(d: Document, i: int) -> Option<Seq<char>>
    decreases d.pages@.len() - i,
{
    if i < 0 || i >= d.pages@.len() {
        None
    } else {
        let p = d.pages@[i];
        if page_ids(d).take(i).contains(p.id@) || page_indexes(d).take(i).contains(p.index) {
            Some("duplicate page ID or index"@)
        } else if p.bounds_page != p.index {
            Some("page bounds use a different page index"@)
        } else {
            match page_fault(p) {
                Some(m) => Some(m),
                None => page_fault_from(d, i + 1),
            }
        }
    }
}

/// Why a document is refused, if it is: a foreign schema major version, else the
/// first refused page.
pub open spec fn document_fault(d: Document) -> Option<Seq<char>> {
    if d.schema_version.major != CURRENT_SCHEMA_MAJOR {
        Some("unsupported IR schema major version"@)
    } else {
        page_fault_from(d, 0)
    }
}

/// The refusal carrying `message`.
fn invalid(message: &str) -> (e: IrError)
    ensures
        e matches IrError::Invalid(s) && s@ == message@,
{
    IrError::Invalid(owned(message))
}

/// True when some text occurs twice.
fn has_repeat(v: &Vec<String>) -> (r: bool)
    ensures
        r == !distinct(texts(v@)),
{
    let mut i: usize = 0;
    while i < v.len()
        invariant
            i <= v@.len(),
            forall|a: int, b: int|
                0 <= a < i && a < b < v@.len() ==> #[trigger] texts(v@)[a] != #[trigger] texts(v@)[b],
        decreases v@.len() - i,
    {
        let mut j: usize = i + 1;
        while j < v.len()
            invariant
                i < v@.len(),
                i + 1 <= j <= v@.len(),
                forall|a: int, b: int|
                    0 <= a < i && a < b < v@.len() ==> #[trigger] texts(v@)[a] != #[trigger] texts(v@)[b],
                forall|b: int| i < b < j ==> texts(v@)[i as int] != #[trigger] texts(v@)[b],
            decreases v@.len() - j,
        {
            if v[i] == v[j] {
                assert(texts(v@)[i as int] == texts(v@)[j as int]);
                return true;
            }
            j = j + 1;
        }
        i = i + 1;
    }
    false
}

/// True when `v` holds the text `s`.
fn holds_text(v: &Vec<String>, s: &String) -> (r: bool)
    ensures
        r == texts(v@).contains(s@),
{
    let mut i: usize = 0;
    while i < v.len()
        invariant
            i <= v@.len(),
            forall|j: int| 0 <= j < i ==> texts(v@)[j] != s@,
        decreases v@.len() - i,
    {
        if v[i] == *s {
            assert(texts(v@)[i as int] == s@);
            return true;
        }
        i = i + 1;
    }
    false
}

/// The layer IDs of a page as strings.
fn layer_texts(p: &Page) -> (v: Vec<String>)
    ensures
        texts(v@) == layer_ids(*p),
{
    let mut v: Vec<String> = Vec::new();
    let mut i: usize = 0;
    while i < p.layers.len()
        invariant
            i <= p.layers@.len(),
            v@.len() == i,
            forall|j: int| 0 <= j < i ==> (#[trigger] v@[j])@ == p.layers@[j].id@,
        decreases p.layers@.len() - i,
    {
        v.push(p.layers[i].id.to_string());
        i = i + 1;
    }
    assert(texts(v@) =~= layer_ids(*p));
    v
}

/// The artifact IDs of a page as strings.
fn artifact_texts(p: &Page) -> (v: Vec<String>)
    ensures
        texts(v@) == artifact_ids(*p),
{
    let mut v: Vec<String> = Vec::new();
    let mut i: usize = 0;
    while i < p.artifacts.len()
        invariant
            i <= p.artifacts@.len(),
            v@.len() == i,
            forall|j: int| 0 <= j < i ==> (#[trigger] v@[j])@ == p.artifacts@[j].id@,
        decreases p.artifacts@.len() - i,
    {
        v.push(p.artifacts[i].id.to_string());
        i = i + 1;
    }
    assert(texts(v@) =~= artifact_ids(*p));
    v
}

/// The region IDs of a page as strings.
fn region_texts(p: &Page) -> (v: Vec<String>)
    ensures
        texts(v@) == region_ids(*p),
{
    let mut v: Vec<String> = Vec::new();
    let mut i: usize = 0;
    while i < p.regions.len()
        invariant
            i <= p.regions@.len(),
            v@.len() == i,
            forall|j: int| 0 <= j < i ==> (#[trigger] v@[j])@ == p.regions@[j].id@,
        decreases p.regions@.len() - i,
    {
        v.push(p.regions[i].id.to_string());
        i = i + 1;
    }
    assert(texts(v@) =~= region_ids(*p));
    v
}

/// True when region `reg` holds evidence with the ID `id`.
fn region_has_evidence(reg: &Region, id: &EvidenceId) -> (r: bool)
    ensures
        r == evidence_ids(*reg).contains(id@),
{
    let mut i: usize = 0;
    while i < reg.evidence.len()
        invariant
            i <= reg.evidence@.len(),
            forall|j: int| 0 <= j < i ==> evidence_ids(*reg)[j] != id@,
        decreases reg.evidence@.len() - i,
    {
        if reg.evidence[i].id.same_as(id) {
            assert(evidence_ids(*reg)[i as int] == id@);
            return true;
        }
        i = i + 1;
    }
    false
}

/// Checks the selected view of a region.
fn check_selection(reg: &Region) -> (r: bool)
    ensures
        r == !selection_broken(*reg),
{
    match &reg.selected {
        None => true,
        Some(sel) => {
            if sel.evidence_ids.len() == 0 {
                return false;
            }
            let mut i: usize = 0;
            while i < sel.evidence_ids.len()
                invariant
                    reg.selected == Some(*sel),
                    i <= sel.evidence_ids@.len(),
                    forall|j: int|
                        0 <= j < i ==> evidence_ids(*reg).contains(#[trigger] sel.evidence_ids@[j]@),
                decreases sel.evidence_ids@.len() - i,
            {
                if !region_has_evidence(reg, &sel.evidence_ids[i]) {
                    return false;
                }
                i = i + 1;
            }
            true
        },
    }
}

/// Checks the regions of a page in order, given its layer and artifact IDs.
fn check_regions(p: &Page, layers: &Vec<String>, artifacts: &Vec<String>) -> (r: Result<(), IrError>)
    requires
        texts(layers@) == layer_ids(*p),
        texts(artifacts@) == artifact_ids(*p),
    ensures
        match region_fault_from(*p, 0) {
            None => r is Ok,
            Some(m) => r matches Err(IrError::Invalid(s)) && s@ == m,
        },
{
    let mut seen: Vec<String> = Vec::new();
    let mut r: usize = 0;
    while r < p.regions.len()
        invariant
            r <= p.regions@.len(),
            texts(layers@) == layer_ids(*p),
            texts(artifacts@) == artifact_ids(*p),
            texts(seen@) == evidence_ids_upto(*p, r as int),
            region_fault_from(*p, 0) == region_fault_from(*p, r as int),
        decreases p.regions@.len() - r,
    {
        let reg = &p.regions[r];
        if reg.geometry_page != p.index {
            return Err(invalid("region geometry uses a different page index"));
        }
        match &reg.placement {
            Placement::Incomparable(message) => {
                return Err(IrError::Invalid(message.clone()));
            },
            Placement::Outside => {
                return Err(invalid("region lies outside page bounds"));
            },
            Placement::Inside => {},
        }
        let mut e: usize = 0;
        while e < reg.evidence.len()
            invariant
                r < p.regions@.len(),
                *reg == p.regions@[r as int],
                reg.geometry_page == p.index,
                reg.placement is Inside,
                region_fault_from(*p, 0) == region_fault_from(*p, r as int),
                e <= reg.evidence@.len(),
                texts(layers@) == layer_ids(*p),
                texts(artifacts@) == artifact_ids(*p),
                texts(seen@) == evidence_ids_upto(*p, r as int) + evidence_ids(*reg).take(e as int),
                evidence_fault_from(*p, r as int, 0) == evidence_fault_from(*p, r as int, e as int),
            decreases reg.evidence@.len() - e,
        {
            let ev = &reg.evidence[e];
            let id_text = ev.id.to_string();
            proof {
                assert(region_fault_from(*p, r as int) == match region_fault(*p, r as int) {
                    Some(m) => Some(m),
                    None => region_fault_from(*p, r + 1),
                });
                assert(region_fault(*p, r as int) == match evidence_fault_from(*p, r as int, 0) {
                    Some(m) => Some(m),
                    None => if selection_broken(*reg) {
                        Some("selected view references missing evidence"@)
                    } else {
                        None
                    },
                });
                assert(evidence_fault_from(*p, r as int, e as int) == match evidence_fault(
                    *p,
                    r as int,
                    e as int,
                ) {
                    Some(m) => Some(m),
                    None => evidence_fault_from(*p, r as int, e + 1),
                });
            }
            if holds_text(&seen, &id_text) {
                return Err(invalid("duplicate evidence ID"));
            }
            let layer_text = ev.layer_id.to_string();
            if !holds_text(layers, &layer_text) {
                return Err(invalid("evidence references an unknown layer"));
            }
            match ev.geometry_page {
                Some(g) => {
                    if g != p.index {
                        return Err(invalid("evidence geometry uses a different page index"));
                    }
                },
                None => {},
            }
            match &ev.content {
                EvidenceContent::Image { artifact: a, .. } => {
                    let artifact_text = a.to_string();
                    if !holds_text(artifacts, &artifact_text) {
                        return Err(invalid("image evidence references an unknown artifact"));
                    }
                },
                _ => {},
            }
            let ghost before = seen@;
            seen.push(id_text);
            proof {
                assert(evidence_fault(*p, r as int, e as int) is None);
                assert(texts(seen@) =~= texts(before).push(ev.id@));
                assert(evidence_ids(*reg).take(e + 1) =~= evidence_ids(*reg).take(e as int).push(ev.id@));
            }
            e = e + 1;
        }
        proof {
            assert(evidence_ids(*reg).take(e as int) =~= evidence_ids(*reg));
        }
        if !check_selection(reg) {
            return Err(invalid("selected view references missing evidence"));
        }
        r = r + 1;
    }
    Ok(())
}

/// Position of the region with ID text `id`.
fn region_position(regions: &Vec<String>, id: &String) -> (r: Option<usize>)
    ensures
        match r {
            Some(i) => i < regions@.len() && texts(regions@)[i as int] == id@,
            None => !texts(regions@).contains(id@),
        },
{
    let mut i: usize = 0;
    while i < regions.len()
        invariant
            i <= regions@.len(),
            forall|j: int| 0 <= j < i ==> texts(regions@)[j] != id@,
        decreases regions@.len() - i,
    {
        if regions[i] == *id {
            return Some(i);
        }
        i = i + 1;
    }
    None
}

/// Checks the reading-order edges of a page and that they form no cycle, given its
/// distinct region IDs.
fn check_reading_order(p: &Page, regions: &Vec<String>) -> (r: Result<(), IrError>)
    requires
        texts(regions@) == region_ids(*p),
        distinct(region_ids(*p)),
    ensures
        (exists|k: int| 0 <= k < p.reading_order@.len() && #[trigger] edge_invalid(*p, k)) ==> (r
            matches Err(IrError::Invalid(s)) && s@ == "invalid reading-order edge"@),
        !(exists|k: int| 0 <= k < p.reading_order@.len() && #[trigger] edge_invalid(*p, k)) ==> {
            &&& reading_order_acyclic(p.reading_order@) ==> r is Ok
            &&& !reading_order_acyclic(p.reading_order@) ==> (r matches Err(IrError::Invalid(s)) && s@
                == "reading-order graph contains a cycle"@)
        },
{
    let ghost ids = region_ids(*p);
    let mut edges: Vec<(usize, usize)> = Vec::new();
    let mut k: usize = 0;
    while k < p.reading_order.len()
        invariant
            k <= p.reading_order@.len(),
            texts(regions@) == ids,
            ids == region_ids(*p),
            edges@.len() == k,
            forall|j: int| 0 <= j < k ==> !#[trigger] edge_invalid(*p, j),
            forall|j: int|
                0 <= j < k ==> (#[trigger] edges@[j]).0 < ids.len() && edges@[j].1 < ids.len()
                    && ids[edges@[j].0 as int] == p.reading_order@[j].before@ && ids[edges@[j].1 as int]
                    == p.reading_order@[j].after@,
        decreases p.reading_order@.len() - k,
    {
        let edge = &p.reading_order[k];
        let before = edge.before.to_string();
        let after = edge.after.to_string();
        if edge.before.same_as(&edge.after) {
            assert(edge_invalid(*p, k as int));
            return Err(invalid("invalid reading-order edge"));
        }
        let b = match region_position(regions, &before) {
            Some(b) => b,
            None => {
                assert(edge_invalid(*p, k as int));
                return Err(invalid("invalid reading-order edge"));
            },
        };
        let a = match region_position(regions, &after) {
            Some(a) => a,
            None => {
                assert(edge_invalid(*p, k as int));
                return Err(invalid("invalid reading-order edge"));
            },
        };
        proof {
            assert(ids.contains(edge.before@));
            assert(ids.contains(edge.after@));
        }
        edges.push((b, a));
        k = k + 1;
    }
    let n = regions.len();
    let ordered = has_topological_order(n, &edges);
    let ghost es = p.reading_order@;
    proof {
        if ordered {
            let irank = choose|rank: spec_fn(int) -> int| ranks_edges(edges@, rank);
            let rank = |t: Seq<char>| irank(choose|i: int| 0 <= i < ids.len() && ids[i] == t);
            assert forall|j: int| #![trigger es[j]] 0 <= j < es.len() implies rank(es[j].before@) < rank(
                es[j].after@,
            ) by {
                let (b, a) = edges@[j];
                let bi = choose|i: int| 0 <= i < ids.len() && ids[i] == es[j].before@;
                let ai = choose|i: int| 0 <= i < ids.len() && ids[i] == es[j].after@;
                assert(ids[b as int] == es[j].before@);
                assert(bi == b as int);
                assert(ai == a as int);
                assert(irank(edges@[j].0 as int) < irank(edges@[j].1 as int));
            }
            assert(ranks_reading_order(es, rank));
            assert(reading_order_acyclic(es));
        } else {
            if reading_order_acyclic(es) {
                let rank = choose|rank: spec_fn(Seq<char>) -> int| ranks_reading_order(es, rank);
                let irank = |i: int| rank(ids[i]);
                assert(ranks_edges(edges@, irank)) by {
                    assert forall|j: int| #![trigger edges@[j]] 0 <= j < edges@.len() implies irank(
                        edges@[j].0 as int,
                    ) < irank(edges@[j].1 as int) by {
                        assert(es[j] == es[j]);
                    }
                }
                assert(topologically_orderable(edges@));
            }
        }
    }
    if ordered {
        Ok(())
    } else {
        Err(invalid("reading-order graph contains a cycle"))
    }
}

/// Checks one page's own invariants.
fn check_page(p: &Page) -> (r: Result<(), IrError>)
    ensures
        match page_fault(*p) {
            None => r is Ok,
            Some(m) => r matches Err(IrError::Invalid(s)) && s@ == m,
        },
{
    let layers = layer_texts(p);
    if has_repeat(&layers) {
        return Err(invalid("duplicate source layer ID"));
    }
    let artifacts = artifact_texts(p);
    if has_repeat(&artifacts) {
        return Err(invalid("duplicate render artifact ID"));
    }
    let regions = region_texts(p);
    if has_repeat(&regions) {
        return Err(invalid("duplicate region ID"));
    }
    match check_regions(p, &layers, &artifacts) {
        Ok(()) => {},
        Err(e) => return Err(e),
    }
    check_reading_order(p, &regions)
}

impl Document {
    /// Validates cross-reference, uniqueness, geometry, page-index, and DAG invariants.
    pub fn validate(&self) -> (r: Result<(), IrError>)
        ensures
            match document_fault(*self) {
                None => r is Ok,
                Some(m) => r matches Err(IrError::Invalid(s)) && s@ == m,
            },
    {
        if self.schema_version.major != CURRENT_SCHEMA_MAJOR {
            return Err(invalid("unsupported IR schema major version"));
        }
        let mut ids: Vec<String> = Vec::new();
        let mut indexes: Vec<u32> = Vec::new();
        let mut i: usize = 0;
        while i < self.pages.len()
            invariant
                i <= self.pages@.len(),
                texts(ids@) == page_ids(*self).take(i as int),
                indexes@ == page_indexes(*self).take(i as int),
                document_fault(*self) == page_fault_from(*self, i as int),
            decreases self.pages@.len() - i,
        {
            let page = &self.pages[i];
            let id_text = page.id.to_string();
            let mut seen_index = false;
            let mut j: usize = 0;
            while j < indexes.len()
                invariant
                    j <= indexes@.len(),
                    seen_index <==> exists|t: int| 0 <= t < j && indexes@[t] == page.index,
                decreases indexes@.len() - j,
            {
                if indexes[j] == page.index {
                    seen_index = true;
                }
                j = j + 1;
            }
            if holds_text(&ids, &id_text) || seen_index {
                return Err(invalid("duplicate page ID or index"));
            }
            if page.bounds_page != page.index {
                return Err(invalid("page bounds use a different page index"));
            }
            match check_page(page) {
                Ok(()) => {},
                Err(e) => return Err(e),
            }
            let ghost before_ids = ids@;
            ids.push(id_text);
            indexes.push(page.index);
            proof {
                assert(texts(ids@) =~= texts(before_ids).push(page.id@));
                assert(page_ids(*self).take(i + 1) =~= page_ids(*self).take(i as int).push(page.id@));
                assert(page_indexes(*self).take(i + 1) =~= page_indexes(*self).take(i as int).push(page.index));
            }
            i = i + 1;
        }
        Ok(())
    }
}

/// Every page from position `i` on passes its own checks when none is refused.
proof fn lemma_pages_pass(d: Document, i: int, j: int)
    requires
        0 <= i <= j < d.pages@.len(),
        page_fault_from(d, i) is None,
    ensures
        page_fault(d.pages@[j]) is None,
        d.pages@[j].bounds_page == d.pages@[j].index,
    decreases j - i,
{
    if i < j {
        lemma_pages_pass(d, i + 1, j);
    }
}

/// Every region from position `r` on passes its own checks when none is refused.
proof fn lemma_regions_pass(p: Page, r: int, j: int)
    requires
        0 <= r <= j < p.regions@.len(),
        region_fault_from(p, r) is None,
    ensures
        region_fault(p, j) is None,
    decreases j - r,
{
    if r < j {
        lemma_regions_pass(p, r + 1, j);
    }
}

/// A page of a valid document passes its own checks.
proof fn lemma_valid_page(d: Document, i: int)
    requires
        document_fault(d) is None,
        0 <= i < d.pages@.len(),
    ensures
        page_fault(d.pages@[i]) is None,
{
    lemma_pages_pass(d, 0, i);
}

/// In a valid document, every selected view names at least one evidence record, and
/// each evidence ID it names belongs to evidence of the same region.
pub proof fn lemma_valid_selection_is_grounded(d: Document, i: int, r: int)
    requires
        document_fault(d) is None,
        0 <= i < d.pages@.len(),
        0 <= r < d.pages@[i].regions@.len(),
    ensures
        d.pages@[i].regions@[r].selected matches Some(sel) ==> sel.evidence_ids@.len() > 0
            && forall|k: int|
            0 <= k < sel.evidence_ids@.len() ==> evidence_ids(d.pages@[i].regions@[r]).contains(
                #[trigger] sel.evidence_ids@[k]@,
            ),
{
    lemma_valid_page(d, i);
    lemma_regions_pass(d.pages@[i], 0, r);
}

/// A walk along reading-order edges: consecutive region IDs are joined by an edge.
pub open spec fn is_reading_walk(edges: Seq<ReadingOrderEdge>, walk: Seq<Seq<char>>) -> bool {
    forall|t: int|
        0 <= t < walk.len() - 1 ==> exists|k: int|
            0 <= k < edges.len() && edges[k].before@ == #[trigger] walk[t] && edges[k].after@ == walk[t
                + 1]
}

/// Ranks increase strictly along a reading walk.
proof fn lemma_walk_rank(
    edges: Seq<ReadingOrderEdge>,
    walk: Seq<Seq<char>>,
    rank: spec_fn(Seq<char>) -> int,
    t: int,
)
    requires
        ranks_reading_order(edges, rank),
        is_reading_walk(edges, walk),
        1 <= t < walk.len(),
    ensures
        rank(walk[0]) < rank(walk[t]),
    decreases t,
{
    assert(walk[t - 1] == walk[t - 1]);
    let k = choose|k: int| 0 <= k < edges.len() && edges[k].before@ == walk[t - 1] && edges[k].after@ == walk[t];
    assert(rank(edges[k].before@) < rank(edges[k].after@));
    if t > 1 {
        lemma_walk_rank(edges, walk, rank, t - 1);
    }
}

/// In a valid document, reading order has no cycle: no walk of one or more
/// reading-order edges returns to the region it started from.
pub proof fn lemma_valid_reading_order_has_no_cycle(d: Document, i: int, walk: Seq<Seq<char>>)
    requires
        document_fault(d) is None,
        0 <= i < d.pages@.len(),
        walk.len() >= 2,
        is_reading_walk(d.pages@[i].reading_order@, walk),
    ensures
        walk[0] != walk[walk.len() - 1],
{
    lemma_valid_page(d, i);
    let edges = d.pages@[i].reading_order@;
    let rank = choose|rank: spec_fn(Seq<char>) -> int| ranks_reading_order(edges, rank);
    lemma_walk_rank(edges, walk, rank, walk.len() - 1);
}

/// In a valid document, evidence IDs on one page are distinct, and every evidence
/// record names a layer of its page.
pub proof fn lemma_valid_evidence_is_distinct_and_layered(d: Document, i: int, r: int, e: int)
    requires
        document_fault(d) is None,
        0 <= i < d.pages@.len(),
        0 <= r < d.pages@[i].regions@.len(),
        0 <= e < d.pages@[i].regions@[r].evidence@.len(),
    ensures
        !(evidence_ids_upto(d.pages@[i], r) + evidence_ids(d.pages@[i].regions@[r]).take(e)).contains(
            d.pages@[i].regions@[r].evidence@[e].id@,
        ),
        layer_ids(d.pages@[i]).contains(d.pages@[i].regions@[r].evidence@[e].layer_id@),
{
    let p = d.pages@[i];
    lemma_valid_page(d, i);
    lemma_regions_pass(p, 0, r);
    lemma_evidence_pass(p, r, 0, e);
}

/// Every evidence record from position `e` on passes when none is refused.
proof fn lemma_evidence_pass(p: Page, r: int, e: int, j: int)
    requires
        0 <= r < p.regions@.len(),
        0 <= e <= j < p.regions@[r].evidence@.len(),
        evidence_fault_from(p, r, e) is None,
    ensures
        evidence_fault(p, r, j) is None,
    decreases j - e,
{
    if e < j {
        lemma_evidence_pass(p, r, e + 1, j);
    }
}

} // verus!
