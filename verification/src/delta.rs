//! Applying an evidence delta to a document: append-only additions, never replacement.
//!
//! The pages of a document are modelled by their identities and the sequences they hold,
//! so that the effect of a delta, including what it leaves behind when it is refused part
//! way, is stated over values.

use vstd::prelude::*;

use crate::id::{EvidenceId, PageId, RegionId};
use crate::ir::{
    Document, Evidence, IrError, Page, Placement, ReadingOrderEdge, Region, RegionKind,
    RenderArtifact, SelectedView, SelectionReason, SourceLayer,
};
use crate::state::{
    envelope_fault, EvidenceDelta, LayerOwner, OwnedSourceLayer, PageDelta, RefinementScope,
    RegionEvidenceAddition, SelectionHint,
};

verus! {

/// A region as the delta rules read and change it.
pub struct RegionModel {
    /// Stable region identity.
    pub id: RegionId,
    /// Semantic kind.
    pub kind: RegionKind,
    /// Page index of the region geometry.
    pub geometry_page: u32,
    /// Placement against the page bounds.
    pub placement: Placement,
    /// Evidence records, in order.
    pub evidence: Seq<Evidence>,
    /// Selected view.
    pub selected: Option<SelectedView>,
}

/// A page as the delta rules read and change it.
pub struct PageModel {
    /// Stable page identity.
    pub id: PageId,
    /// Zero-based page index.
    pub index: u32,
    /// Page index recorded in the page bounds.
    pub bounds_page: u32,
    /// Source layers, in order.
    pub layers: Seq<SourceLayer>,
    /// Render artifacts, in order.
    pub artifacts: Seq<RenderArtifact>,
    /// Regions, in order.
    pub regions: Seq<RegionModel>,
    /// Reading-order edges, in order.
    pub reading_order: Seq<ReadingOrderEdge>,
}

/// The model of a region.
pub open spec fn region_model(r: Region) -> RegionModel {
    RegionModel {
        id: r.id,
        kind: r.kind,
        geometry_page: r.geometry_page,
        placement: r.placement,
        evidence: r.evidence@,
        selected: r.selected,
    }
}

/// The models of regions.
pub open spec fn region_models(rs: Seq<Region>) -> Seq<RegionModel> {
    Seq::new(rs.len(), |i: int| region_model(rs[i]))
}

/// The model of a page.
pub open spec fn page_model(p: Page) -> PageModel {
    PageModel {
        id: p.id,
        index: p.index,
        bounds_page: p.bounds_page,
        layers: p.layers@,
        artifacts: p.artifacts@,
        regions: region_models(p.regions@),
        reading_order: p.reading_order@,
    }
}

/// The models of pages.
pub open spec fn page_models(ps: Seq<Page>) -> Seq<PageModel> {
    Seq::new(ps.len(), |i: int| page_model(ps[i]))
}

/// Index of the first page with identifier `id`.
pub open spec fn page_at(ps: Seq<PageModel>, id: Seq<char>) -> Option<int>
    decreases ps.len(),
{
    if ps.len() == 0 {
        None
    } else {
        match page_at(ps.drop_last(), id) {
            Some(p) => Some(p),
            None => if ps.last().id@ == id {
                Some(ps.len() - 1)
            } else {
                None
            },
        }
    }
}

/// Index of the first region with identifier `id`.
pub open spec fn region_at(rs: Seq<RegionModel>, id: Seq<char>) -> Option<int>
    decreases rs.len(),
{
    if rs.len() == 0 {
        None
    } else {
        match region_at(rs.drop_last(), id) {
            Some(r) => Some(r),
            None => if rs.last().id@ == id {
                Some(rs.len() - 1)
            } else {
                None
            },
        }
    }
}

/// Some region of the page has identifier `id`.
pub open spec fn model_has_region(rs: Seq<RegionModel>, id: Seq<char>) -> bool {
    exists|k: int| 0 <= k < rs.len() && (#[trigger] rs[k]).id@ == id
}

/// Some evidence record of the document has identifier `id`.
pub open spec fn document_has_evidence(ps: Seq<Page>, id: Seq<char>) -> bool {
    exists|p: int, r: int, e: int|
        0 <= p < ps.len() && 0 <= r < ps[p].regions@.len() && 0 <= e
            < ps[p].regions@[r].evidence@.len() && (#[trigger] ps[p].regions@[r].evidence@[e]).id@
            == id
}

/// The page of an addition lies in the declared scope.
pub open spec fn addition_in_scope(scope: RefinementScope, page_id: Seq<char>) -> bool {
    match scope {
        RefinementScope::Document => true,
        RefinementScope::Pages { page_ids } => exists|k: int|
            0 <= k < page_ids@.len() && (#[trigger] page_ids@[k])@ == page_id,
        RefinementScope::Regions { regions } => exists|k: int|
            0 <= k < regions@.len() && (#[trigger] regions@[k]).page_id@ == page_id,
    }
}

/// The first rule a delta breaks before anything is added, if any: its envelope, its
/// source and schema, its required evidence, a page-introducing delta that is not
/// document-scoped, and an addition outside the scope.
pub open spec fn delta_precheck(d: Document, delta: EvidenceDelta) -> Option<Seq<char>> {
    if envelope_fault(delta) is Some {
        envelope_fault(delta)
    } else if delta.source_pdf_sha256 != d.input_digest || delta.ir_schema != d.schema_version {
        Some("delta source or IR schema differs from the document"@)
    } else if exists|k: int|
        0 <= k < delta.required_evidence_ids@.len() && !document_has_evidence(
            d.pages@,
            (#[trigger] delta.required_evidence_ids@[k])@,
        ) {
        Some("delta required evidence is absent from the input document"@)
    } else if delta.new_pages@.len() > 0 && !(delta.scope is Document) {
        Some("only a document-scoped delta may introduce pages"@)
    } else if exists|k: int|
        0 <= k < delta.page_additions@.len() && !addition_in_scope(
            delta.scope,
            (#[trigger] delta.page_additions@[k]).page_id@,
        ) {
        Some("page addition lies outside the declared refinement scope"@)
    } else {
        None
    }
}

/// The pages after adding the first `n` new pages in order, and whether one of them
/// replaced an existing page, at which the addition stopped.
pub open spec fn add_new_pages(ps: Seq<PageModel>, news: Seq<Page>, n: nat) -> (Seq<PageModel>, bool)
    decreases n,
{
    if n == 0 {
        (ps, false)
    } else {
        let (qs, failed) = add_new_pages(ps, news, (n - 1) as nat);
        if failed {
            (qs, true)
        } else if page_at(qs, news[n - 1].id@) is Some {
            (qs, true)
        } else {
            (qs.push(page_model(news[n - 1])), false)
        }
    }
}

/// A layer owner resolves on the page: the page itself, or a region of the page or of
/// the addition.
pub open spec fn owner_resolves(page: PageModel, added: Seq<Region>, owner: LayerOwner) -> bool {
    match owner {
        LayerOwner::Page { page_id } => page_id@ == page.id@,
        LayerOwner::Region { page_id, region_id } => page_id@ == page.id@ && (model_has_region(
            page.regions,
            region_id@,
        ) || exists|k: int| 0 <= k < added.len() && (#[trigger] added[k]).id@ == region_id@),
    }
}

/// The page after adding the first `n` owned layers, and whether an owner failed to
/// resolve, at which the addition stopped.
pub open spec fn add_layers(page: PageModel, a: PageDelta, n: nat) -> (PageModel, bool)
    decreases n,
{
    if n == 0 {
        (page, false)
    } else {
        let (q, failed) = add_layers(page, a, (n - 1) as nat);
        if failed {
            (q, true)
        } else if !owner_resolves(q, a.regions@, a.source_layers@[n - 1].owner) {
            (q, true)
        } else {
            (PageModel { layers: q.layers.push(a.source_layers@[n - 1].layer), ..q }, false)
        }
    }
}

/// The page after appending the first `n` evidence additions to their regions, and
/// whether an owner region was absent, at which the appending stopped.
pub open spec fn add_evidence(page: PageModel, adds: Seq<RegionEvidenceAddition>, n: nat) -> (
    PageModel,
    bool,
)
    decreases n,
{
    if n == 0 {
        (page, false)
    } else {
        let (q, failed) = add_evidence(page, adds, (n - 1) as nat);
        if failed {
            (q, true)
        } else {
            match region_at(q.regions, adds[n - 1].region_id@) {
                None => (q, true),
                Some(r) => (
                    PageModel {
                        regions: q.regions.update(
                            r,
                            RegionModel {
                                evidence: q.regions[r].evidence + adds[n - 1].evidence@,
                                ..q.regions[r]
                            },
                        ),
                        ..q
                    },
                    false,
                ),
            }
        }
    }
}

/// The pages after one page addition, and the refusal at which it stopped, if any.
pub open spec fn apply_addition(ps: Seq<PageModel>, a: PageDelta) -> (Seq<PageModel>, Option<Seq<char>>) {
    match page_at(ps, a.page_id@) {
        None => (ps, Some("delta page addition target is absent"@)),
        Some(p) => {
            let (q1, f1) = add_layers(ps[p], a, a.source_layers@.len());
            if f1 {
                (ps.update(p, q1), Some("source-layer owner does not resolve on its containing page"@))
            } else {
                let q2 = PageModel {
                    artifacts: q1.artifacts + a.render_artifacts@,
                    regions: q1.regions + region_models(a.regions@),
                    ..q1
                };
                let (q3, f3) = add_evidence(q2, a.region_evidence@, a.region_evidence@.len());
                if f3 {
                    (ps.update(p, q3), Some("evidence owner region is absent"@))
                } else {
                    (
                        ps.update(
                            p,
                            PageModel { reading_order: q3.reading_order + a.reading_order_edges@, ..q3 },
                        ),
                        None,
                    )
                }
            }
        },
    }
}

/// The pages after the first `n` page additions, and the refusal at which they stopped.
pub open spec fn apply_additions(ps: Seq<PageModel>, adds: Seq<PageDelta>, n: nat) -> (
    Seq<PageModel>,
    Option<Seq<char>>,
)
    decreases n,
{
    if n == 0 {
        (ps, None)
    } else {
        let (qs, e) = apply_additions(ps, adds, (n - 1) as nat);
        if e is Some {
            (qs, e)
        } else {
            apply_addition(qs, adds[n - 1])
        }
    }
}

/// Two selected views are the same: the same evidence, reason and explanation.
pub open spec fn same_selection(a: SelectedView, b: SelectedView) -> bool {
    &&& a.evidence_ids@.len() == b.evidence_ids@.len()
    &&& forall|k: int| 0 <= k < a.evidence_ids@.len() ==> (#[trigger] a.evidence_ids@[k])@ == b.evidence_ids@[k]@
    &&& a.reason == b.reason
    &&& a.explanation@ == b.explanation@
}

/// The pages after one selection hint, and the refusal, if any: the hint's page and
/// region must exist, and a region already selected must hold the same view.
pub open spec fn apply_hint(ps: Seq<PageModel>, h: SelectionHint) -> (Seq<PageModel>, Option<Seq<char>>) {
    match page_at(ps, h.region.page_id@) {
        None => (ps, Some("selection-hint page is absent"@)),
        Some(p) => match region_at(ps[p].regions, h.region.region_id@) {
            None => (ps, Some("selection-hint region is absent"@)),
            Some(r) => if ps[p].regions[r].selected matches Some(s) && !same_selection(s, h.selected) {
                (ps, Some("conflicting selection hints require a different reconciliation policy"@))
            } else {
                (
                    ps.update(
                        p,
                        PageModel {
                            regions: ps[p].regions.update(
                                r,
                                RegionModel { selected: Some(h.selected), ..ps[p].regions[r] },
                            ),
                            ..ps[p]
                        },
                    ),
                    None,
                )
            },
        },
    }
}

/// The pages after the first `n` selection hints, and the refusal at which they stopped.
pub open spec fn apply_hints(ps: Seq<PageModel>, hints: Seq<SelectionHint>, n: nat) -> (
    Seq<PageModel>,
    Option<Seq<char>>,
)
    decreases n,
{
    if n == 0 {
        (ps, None)
    } else {
        let (qs, e) = apply_hints(ps, hints, (n - 1) as nat);
        if e is Some {
            (qs, e)
        } else {
            apply_hint(qs, hints[n - 1])
        }
    }
}

/// The pages a delta leaves, and its refusal, if any: nothing changes when a rule checked
/// before any addition fails; otherwise new pages, page additions and selection hints are
/// applied in order, and a refusal leaves the pages as they were when it was met.
pub open spec fn delta_outcome(d: Document, delta: EvidenceDelta) -> (Seq<PageModel>, Option<Seq<char>>) {
    let start = page_models(d.pages@);
    match delta_precheck(d, delta) {
        Some(m) => (start, Some(m)),
        None => {
            let (p1, f1) = add_new_pages(start, delta.new_pages@, delta.new_pages@.len());
            if f1 {
                (p1, Some("delta attempts to replace a page"@))
            } else {
                let (p2, e2) = apply_additions(p1, delta.page_additions@, delta.page_additions@.len());
                if e2 is Some {
                    (p2, e2)
                } else {
                    apply_hints(p2, delta.selection_hints@, delta.selection_hints@.len())
                }
            }
        },
    }
}


/// Once a prefix holds a page with the identifier, longer prefixes agree.
proof fn lemma_page_at_sticks(ps: Seq<PageModel>, id: Seq<char>, i: int)
    requires
        0 <= i <= ps.len(),
        page_at(ps.take(i), id) is Some,
    ensures
        page_at(ps, id) == page_at(ps.take(i), id),
    decreases ps.len() - i,
{
    if i < ps.len() {
        assert(ps.drop_last().take(i) =~= ps.take(i));
        lemma_page_at_sticks(ps.drop_last(), id, i);
    } else {
        assert(ps.take(i) =~= ps);
    }
}

/// Once a prefix holds a region with the identifier, longer prefixes agree.
proof fn lemma_region_at_sticks(rs: Seq<RegionModel>, id: Seq<char>, i: int)
    requires
        0 <= i <= rs.len(),
        region_at(rs.take(i), id) is Some,
    ensures
        region_at(rs, id) == region_at(rs.take(i), id),
    decreases rs.len() - i,
{
    if i < rs.len() {
        assert(rs.drop_last().take(i) =~= rs.take(i));
        lemma_region_at_sticks(rs.drop_last(), id, i);
    } else {
        assert(rs.take(i) =~= rs);
    }
}

/// A found page index lies in the list and names the page.
proof fn lemma_page_at_found(ps: Seq<PageModel>, id: Seq<char>)
    ensures
        page_at(ps, id) matches Some(p) ==> 0 <= p < ps.len() && ps[p].id@ == id,
        page_at(ps, id) is None ==> forall|k: int| 0 <= k < ps.len() ==> (#[trigger] ps[k]).id@ != id,
    decreases ps.len(),
{
    if ps.len() > 0 {
        lemma_page_at_found(ps.drop_last(), id);
        assert forall|k: int| 0 <= k < ps.len() - 1 implies ps.drop_last()[k] == #[trigger] ps[k] by {}
    }
}

/// A found region index lies in the list and names the region.
proof fn lemma_region_at_found(rs: Seq<RegionModel>, id: Seq<char>)
    ensures
        region_at(rs, id) matches Some(r) ==> 0 <= r < rs.len() && rs[r].id@ == id,
        region_at(rs, id) is None <==> !model_has_region(rs, id),
    decreases rs.len(),
{
    if rs.len() > 0 {
        lemma_region_at_found(rs.drop_last(), id);
        assert forall|k: int| 0 <= k < rs.len() - 1 implies rs.drop_last()[k] == #[trigger] rs[k] by {}
        if model_has_region(rs.drop_last(), id) {
            let k = choose|k: int| 0 <= k < rs.drop_last().len() && (#[trigger] rs.drop_last()[k]).id@ == id;
            assert(rs[k].id@ == id);
        }
        if model_has_region(rs, id) && region_at(rs.drop_last(), id) is None {
            let k = choose|k: int| 0 <= k < rs.len() && (#[trigger] rs[k]).id@ == id;
            if k < rs.len() - 1 {
                assert(rs.drop_last()[k].id@ == id);
            }
        }
    }
}

/// The first page of the list with the identifier.
fn find_page_index(pages: &Vec<Page>, id: &PageId) -> (r: Option<usize>)
    ensures
        r matches Some(p) ==> page_at(page_models(pages@), id@) == Some(p as int),
        r is None ==> page_at(page_models(pages@), id@) is None,
        r matches Some(p) ==> p < pages@.len(),
{
    let ghost ms = page_models(pages@);
    let mut i: usize = 0;
    assert(ms.take(0) =~= Seq::<PageModel>::empty());
    while i < pages.len()
        invariant
            ms == page_models(pages@),
            i <= pages@.len(),
            page_at(ms.take(i as int), id@) is None,
        decreases pages@.len() - i,
    {
        assert(ms.take(i + 1).drop_last() =~= ms.take(i as int));
        if pages[i].id.same_as(id) {
            proof {
                lemma_page_at_sticks(ms, id@, i + 1);
            }
            return Some(i);
        }
        i = i + 1;
    }
    assert(ms.take(i as int) =~= ms);
    None
}

/// The first region of the list with the identifier.
fn find_region_index(regions: &Vec<Region>, id: &RegionId) -> (r: Option<usize>)
    ensures
        r matches Some(k) ==> region_at(region_models(regions@), id@) == Some(k as int),
        r is None ==> region_at(region_models(regions@), id@) is None,
        r matches Some(k) ==> k < regions@.len(),
{
    let ghost ms = region_models(regions@);
    let mut i: usize = 0;
    assert(ms.take(0) =~= Seq::<RegionModel>::empty());
    while i < regions.len()
        invariant
            ms == region_models(regions@),
            i <= regions@.len(),
            region_at(ms.take(i as int), id@) is None,
        decreases regions@.len() - i,
    {
        assert(ms.take(i + 1).drop_last() =~= ms.take(i as int));
        if regions[i].id.same_as(id) {
            proof {
                lemma_region_at_sticks(ms, id@, i + 1);
            }
            return Some(i);
        }
        i = i + 1;
    }
    assert(ms.take(i as int) =~= ms);
    None
}

/// True when some evidence record of the pages has the identifier.
fn pages_hold_evidence(pages: &Vec<Page>, id: &EvidenceId) -> (r: bool)
    ensures
        r == document_has_evidence(pages@, id@),
{
    let mut p: usize = 0;
    while p < pages.len()
        invariant
            p <= pages@.len(),
            forall|q: int, r: int, e: int|
                0 <= q < p && 0 <= r < pages@[q].regions@.len() && 0 <= e
                    < pages@[q].regions@[r].evidence@.len() ==> (#[trigger] pages@[q].regions@[r].evidence@[e]).id@
                    != id@,
        decreases pages@.len() - p,
    {
        let page = &pages[p];
        let mut r: usize = 0;
        while r < page.regions.len()
            invariant
                p < pages@.len(),
                *page == pages@[p as int],
                r <= page.regions@.len(),
                forall|q: int, r2: int, e: int|
                    0 <= q < p && 0 <= r2 < pages@[q].regions@.len() && 0 <= e
                        < pages@[q].regions@[r2].evidence@.len() ==> (#[trigger] pages@[q].regions@[r2].evidence@[e]).id@
                        != id@,
                forall|r2: int, e: int|
                    0 <= r2 < r && 0 <= e < page.regions@[r2].evidence@.len() ==> (
                    #[trigger] page.regions@[r2].evidence@[e]).id@ != id@,
            decreases page.regions@.len() - r,
        {
            let region = &page.regions[r];
            let mut e: usize = 0;
            while e < region.evidence.len()
                invariant
                    p < pages@.len(),
                    *page == pages@[p as int],
                    r < page.regions@.len(),
                    *region == page.regions@[r as int],
                    e <= region.evidence@.len(),
                    forall|e2: int| 0 <= e2 < e ==> (#[trigger] region.evidence@[e2]).id@ != id@,
                decreases region.evidence@.len() - e,
            {
                if region.evidence[e].id.same_as(id) {
                    assert(pages@[p as int].regions@[r as int].evidence@[e as int].id@ == id@);
                    return true;
                }
                e = e + 1;
            }
            r = r + 1;
        }
        p = p + 1;
    }
    false
}

/// True when the page of an addition lies in the scope.
fn in_scope(scope: &RefinementScope, page_id: &PageId) -> (r: bool)
    ensures
        r == addition_in_scope(*scope, page_id@),
{
    match scope {
        RefinementScope::Document => true,
        RefinementScope::Pages { page_ids } => {
            let mut k: usize = 0;
            while k < page_ids.len()
                invariant
                    *scope is Pages,
                    scope->page_ids == *page_ids,
                    k <= page_ids@.len(),
                    forall|j: int| 0 <= j < k ==> (#[trigger] page_ids@[j])@ != page_id@,
                decreases page_ids@.len() - k,
            {
                if page_ids[k].same_as(page_id) {
                    assert(page_ids@[k as int]@ == page_id@);
                    assert(addition_in_scope(*scope, page_id@));
                    return true;
                }
                k = k + 1;
            }
            false
        },
        RefinementScope::Regions { regions } => {
            let mut k: usize = 0;
            while k < regions.len()
                invariant
                    *scope is Regions,
                    scope->regions == *regions,
                    k <= regions@.len(),
                    forall|j: int| 0 <= j < k ==> (#[trigger] regions@[j]).page_id@ != page_id@,
                decreases regions@.len() - k,
            {
                if regions[k].page_id.same_as(page_id) {
                    assert(regions@[k as int].page_id@ == page_id@);
                    assert(addition_in_scope(*scope, page_id@));
                    return true;
                }
                k = k + 1;
            }
            false
        },
    }
}

/// The invalid-delta error carrying `message`.
fn refusal(message: &str) -> (e: IrError)
    ensures
        e matches IrError::Invalid(s) && s@ == message@,
{
    IrError::Invalid(crate::canonical::owned(message))
}

/// Checks the rules a delta must meet before anything is added.
fn precheck(document: &Document, delta: &EvidenceDelta) -> (r: Result<(), IrError>)
    ensures
        match delta_precheck(*document, *delta) {
            None => r is Ok,
            Some(m) => r matches Err(IrError::Invalid(s)) && s@ == m,
        },
{
    match delta.validate_envelope() {
        Ok(()) => {},
        Err(e) => {
            return Err(e);
        },
    }
    if !delta.source_pdf_sha256.same_as(&document.input_digest)
        || delta.ir_schema.major != document.schema_version.major
        || delta.ir_schema.minor != document.schema_version.minor {
        return Err(refusal("delta source or IR schema differs from the document"));
    }
    let mut k: usize = 0;
    while k < delta.required_evidence_ids.len()
        invariant
            envelope_fault(*delta) is None,
            delta.source_pdf_sha256 == document.input_digest,
            delta.ir_schema == document.schema_version,
            k <= delta.required_evidence_ids@.len(),
            forall|j: int|
                0 <= j < k ==> document_has_evidence(
                    document.pages@,
                    (#[trigger] delta.required_evidence_ids@[j])@,
                ),
        decreases delta.required_evidence_ids@.len() - k,
    {
        if !pages_hold_evidence(&document.pages, &delta.required_evidence_ids[k]) {
            assert(!document_has_evidence(document.pages@, delta.required_evidence_ids@[k as int]@));
            return Err(refusal("delta required evidence is absent from the input document"));
        }
        k = k + 1;
    }
    let document_scoped = match &delta.scope {
        RefinementScope::Document => true,
        _ => false,
    };
    if delta.new_pages.len() > 0 && !document_scoped {
        return Err(refusal("only a document-scoped delta may introduce pages"));
    }
    let mut k: usize = 0;
    while k < delta.page_additions.len()
        invariant
            envelope_fault(*delta) is None,
            delta.source_pdf_sha256 == document.input_digest,
            delta.ir_schema == document.schema_version,
            forall|j: int|
                0 <= j < delta.required_evidence_ids@.len() ==> document_has_evidence(
                    document.pages@,
                    (#[trigger] delta.required_evidence_ids@[j])@,
                ),
            !(delta.new_pages@.len() > 0 && !(delta.scope is Document)),
            k <= delta.page_additions@.len(),
            forall|j: int|
                0 <= j < k ==> addition_in_scope(
                    delta.scope,
                    (#[trigger] delta.page_additions@[j]).page_id@,
                ),
        decreases delta.page_additions@.len() - k,
    {
        if !in_scope(&delta.scope, &delta.page_additions[k].page_id) {
            assert(!addition_in_scope(delta.scope, delta.page_additions@[k as int].page_id@));
            return Err(refusal("page addition lies outside the declared refinement scope"));
        }
        k = k + 1;
    }
    Ok(())
}

/// Once adding new pages has failed, later pages change nothing.
proof fn lemma_new_pages_stick(ps: Seq<PageModel>, news: Seq<Page>, k: nat, n: nat)
    requires
        k <= n,
        add_new_pages(ps, news, k).1,
    ensures
        add_new_pages(ps, news, n) == add_new_pages(ps, news, k),
    decreases n - k,
{
    if k < n {
        lemma_new_pages_stick(ps, news, k, (n - 1) as nat);
    }
}

/// Once adding layers has failed, later layers change nothing.
proof fn lemma_layers_stick(page: PageModel, a: PageDelta, k: nat, n: nat)
    requires
        k <= n,
        add_layers(page, a, k).1,
    ensures
        add_layers(page, a, n) == add_layers(page, a, k),
    decreases n - k,
{
    if k < n {
        lemma_layers_stick(page, a, k, (n - 1) as nat);
    }
}

/// Once appending evidence has failed, later additions change nothing.
proof fn lemma_evidence_sticks(page: PageModel, adds: Seq<RegionEvidenceAddition>, k: nat, n: nat)
    requires
        k <= n,
        add_evidence(page, adds, k).1,
    ensures
        add_evidence(page, adds, n) == add_evidence(page, adds, k),
    decreases n - k,
{
    if k < n {
        lemma_evidence_sticks(page, adds, k, (n - 1) as nat);
    }
}

/// Once a page addition has been refused, later additions change nothing.
proof fn lemma_additions_stick(ps: Seq<PageModel>, adds: Seq<PageDelta>, k: nat, n: nat)
    requires
        k <= n,
        apply_additions(ps, adds, k).1 is Some,
    ensures
        apply_additions(ps, adds, n) == apply_additions(ps, adds, k),
    decreases n - k,
{
    if k < n {
        lemma_additions_stick(ps, adds, k, (n - 1) as nat);
    }
}

/// Once a selection hint has been refused, later hints change nothing.
proof fn lemma_hints_stick(ps: Seq<PageModel>, hints: Seq<SelectionHint>, k: nat, n: nat)
    requires
        k <= n,
        apply_hints(ps, hints, k).1 is Some,
    ensures
        apply_hints(ps, hints, n) == apply_hints(ps, hints, k),
    decreases n - k,
{
    if k < n {
        lemma_hints_stick(ps, hints, k, (n - 1) as nat);
    }
}

/// Replacing one page replaces its model.
proof fn lemma_page_models_update(v: Seq<Page>, p: int, pg: Page)
    requires
        0 <= p < v.len(),
    ensures
        page_models(v.update(p, pg)) == page_models(v).update(p, page_model(pg)),
{
    assert(page_models(v.update(p, pg)) =~= page_models(v).update(p, page_model(pg)));
}

/// Replacing one region replaces its model.
proof fn lemma_region_models_update(v: Seq<Region>, r: int, rg: Region)
    requires
        0 <= r < v.len(),
    ensures
        region_models(v.update(r, rg)) == region_models(v).update(r, region_model(rg)),
{
    assert(region_models(v.update(r, rg)) =~= region_models(v).update(r, region_model(rg)));
}

/// Adds the new pages in order; true when one would replace a page.
fn add_pages(pages: &mut Vec<Page>, news: Vec<Page>) -> (failed: bool)
    ensures
        (page_models(final(pages)@), failed) == add_new_pages(page_models(old(pages)@), news@, news@.len()),
{
    let ghost start = page_models(pages@);
    let ghost all = news@;
    let len = news.len();
    let mut rest = news;
    let mut k: usize = 0;
    assert(all.skip(0) =~= all);
    while rest.len() > 0
        invariant
            start == page_models(old(pages)@),
            all == news@,
            len == all.len(),
            k <= all.len(),
            rest@ == all.skip(k as int),
            add_new_pages(start, all, k as nat) == (page_models(pages@), false),
        decreases rest@.len(),
    {
        assert(k < all.len());
        let page = rest.remove(0);
        assert(page == all[k as int]);
        assert(rest@ =~= all.skip(k + 1));
        if find_page_index(pages, &page.id).is_some() {
            assert(add_new_pages(start, all, (k + 1) as nat).1);
            proof {
                lemma_new_pages_stick(start, all, (k + 1) as nat, all.len());
            }
            return true;
        }
        let ghost before = pages@;
        pages.push(page);
        assert(page_models(pages@) =~= page_models(before).push(page_model(page)));
        k = k + 1;
    }
    assert(k == all.len());
    false
}

/// True when two selected views hold the same evidence, reason and explanation.
fn same_view(a: &SelectedView, b: &SelectedView) -> (r: bool)
    ensures
        r == same_selection(*a, *b),
{
    if a.evidence_ids.len() != b.evidence_ids.len() {
        return false;
    }
    let mut k: usize = 0;
    while k < a.evidence_ids.len()
        invariant
            a.evidence_ids@.len() == b.evidence_ids@.len(),
            k <= a.evidence_ids@.len(),
            forall|j: int| 0 <= j < k ==> (#[trigger] a.evidence_ids@[j])@ == b.evidence_ids@[j]@,
        decreases a.evidence_ids@.len() - k,
    {
        if !a.evidence_ids[k].same_as(&b.evidence_ids[k]) {
            return false;
        }
        k = k + 1;
    }
    let same_reason = match (a.reason, b.reason) {
        (SelectionReason::NativeQuality, SelectionReason::NativeQuality) => true,
        (SelectionReason::NativeAbsent, SelectionReason::NativeAbsent) => true,
        (SelectionReason::NativeBelowThreshold, SelectionReason::NativeBelowThreshold) => true,
        (SelectionReason::Reconciled, SelectionReason::Reconciled) => true,
        (SelectionReason::UserOverride, SelectionReason::UserOverride) => true,
        _ => false,
    };
    if !same_reason {
        return false;
    }
    let x = crate::text::chars_of(a.explanation.as_str());
    let y = crate::text::chars_of(b.explanation.as_str());
    crate::text::chars_equal(x.as_slice(), y.as_slice())
}

/// True when a layer owner resolves on the page or on the regions the addition brings.
fn owner_ok(page: &Page, added: &Vec<Region>, owner: &LayerOwner) -> (r: bool)
    ensures
        r == owner_resolves(page_model(*page), added@, *owner),
{
    match owner {
        LayerOwner::Page { page_id } => page_id.same_as(&page.id),
        LayerOwner::Region { page_id, region_id } => {
            if !page_id.same_as(&page.id) {
                return false;
            }
            proof {
                lemma_region_at_found(region_models(page.regions@), region_id@);
            }
            if find_region_index(&page.regions, region_id).is_some() {
                return true;
            }
            let mut k: usize = 0;
            while k < added.len()
                invariant
                    *owner is Region,
                    owner->Region_page_id@ == page.id@,
                    owner->Region_region_id == *region_id,
                    !model_has_region(page_model(*page).regions, region_id@),
                    k <= added@.len(),
                    forall|j: int| 0 <= j < k ==> (#[trigger] added@[j]).id@ != region_id@,
                decreases added@.len() - k,
            {
                if added[k].id.same_as(region_id) {
                    assert(added@[k as int].id@ == region_id@);
                    return true;
                }
                k = k + 1;
            }
            false
        },
    }
}

/// Applies one page addition; a refusal leaves the page as far as the addition got.
fn apply_one_addition(pages: &mut Vec<Page>, a: PageDelta) -> (r: Result<(), IrError>)
    ensures
        page_models(final(pages)@) == apply_addition(page_models(old(pages)@), a).0,
        match apply_addition(page_models(old(pages)@), a).1 {
            None => r is Ok,
            Some(m) => r matches Err(IrError::Invalid(s)) && s@ == m,
        },
{
    let ghost a0 = a;
    let ghost old_pages = pages@;
    let ghost m0 = page_models(pages@);
    let p = match find_page_index(pages, &a.page_id) {
        None => {
            return Err(refusal("delta page addition target is absent"));
        },
        Some(p) => p,
    };
    proof {
        lemma_page_at_found(m0, a.page_id@);

    }
    assert(page_at(m0, a0.page_id@) == Some(p as int));
    let mut page = pages.remove(p);
    let ghost rest_pages = pages@;
    assert(page_model(page) == m0[p as int]);
    let PageDelta {
        page_id: _,
        source_layers,
        mut render_artifacts,
        mut regions,
        region_evidence,
        mut reading_order_edges,
    } = a;
    let ghost pm0 = page_model(page);
    let mut layers = source_layers;
    let nl = layers.len();
    let mut k: usize = 0;
    assert(a0.source_layers@.skip(0) =~= a0.source_layers@);
    while layers.len() > 0
        invariant
            nl == a0.source_layers@.len(),
            k <= nl,
            layers@ == a0.source_layers@.skip(k as int),
            regions@ == a0.regions@,
            add_layers(pm0, a0, k as nat) == (page_model(page), false),
            page_at(m0, a0.page_id@) == Some(p as int),
            pm0 == m0[p as int],
            pages@ == rest_pages,
            rest_pages == old_pages.remove(p as int),
            p < old_pages.len(),
            m0 == page_models(old_pages),
            old_pages == old(pages)@,
            a0 == a,
        decreases layers@.len(),
    {
        assert(k < nl);
        let owned = layers.remove(0);
        assert(owned == a0.source_layers@[k as int]);
        assert(layers@ =~= a0.source_layers@.skip(k + 1));
        if !owner_ok(&page, &regions, &owned.owner) {
            assert(add_layers(pm0, a0, (k + 1) as nat).1);
            proof {
                lemma_layers_stick(pm0, a0, (k + 1) as nat, nl as nat);
            }
            pages.insert(p, page);
            proof {
                assert(pages@ =~= old_pages.update(p as int, page));
                lemma_page_models_update(old_pages, p as int, page);
                assert(page_at(m0, a0.page_id@) == Some(p as int));
                assert(pm0 == m0[p as int]);
                assert(add_layers(m0[p as int], a0, a0.source_layers@.len()) == (page_model(page), true));
                assert(apply_addition(m0, a0).0 == m0.update(p as int, page_model(page)));
            }
            return Err(refusal("source-layer owner does not resolve on its containing page"));
        }
        let OwnedSourceLayer { owner: _, layer } = owned;
        page.layers.push(layer);
        k = k + 1;
    }
    assert(k == nl);
    assert(page_at(m0, a0.page_id@) == Some(p as int));
    let ghost q1 = page_model(page);
    let ghost old_regions = page.regions@;
    page.artifacts.append(&mut render_artifacts);
    page.regions.append(&mut regions);
    assert(region_models(page.regions@) =~= region_models(old_regions) + region_models(a0.regions@));
    let ghost q2 = page_model(page);
    assert(q2 == PageModel {
        artifacts: q1.artifacts + a0.render_artifacts@,
        regions: q1.regions + region_models(a0.regions@),
        ..q1
    });
    let mut evs = region_evidence;
    let ne = evs.len();
    let mut j: usize = 0;
    assert(a0.region_evidence@.skip(0) =~= a0.region_evidence@);
    while evs.len() > 0
        invariant
            ne == a0.region_evidence@.len(),
            j <= ne,
            evs@ == a0.region_evidence@.skip(j as int),
            add_evidence(q2, a0.region_evidence@, j as nat) == (page_model(page), false),
            page_at(m0, a0.page_id@) == Some(p as int),
            pm0 == m0[p as int],
            add_layers(pm0, a0, a0.source_layers@.len()) == (q1, false),
            q2 == (PageModel {
                artifacts: q1.artifacts + a0.render_artifacts@,
                regions: q1.regions + region_models(a0.regions@),
                ..q1
            }),
            pages@ == rest_pages,
            rest_pages == old_pages.remove(p as int),
            p < old_pages.len(),
            m0 == page_models(old_pages),
            old_pages == old(pages)@,
            a0 == a,
        decreases evs@.len(),
    {
        assert(j < ne);
        let ev = evs.remove(0);
        assert(ev == a0.region_evidence@[j as int]);
        assert(evs@ =~= a0.region_evidence@.skip(j + 1));
        proof {
            lemma_region_at_found(region_models(page.regions@), ev.region_id@);
        }
        match find_region_index(&page.regions, &ev.region_id) {
            None => {
                assert(add_evidence(q2, a0.region_evidence@, (j + 1) as nat).1);
                proof {
                    lemma_evidence_sticks(q2, a0.region_evidence@, (j + 1) as nat, ne as nat);
                }
                pages.insert(p, page);
                proof {
                    assert(pages@ =~= old_pages.update(p as int, page));
                    lemma_page_models_update(old_pages, p as int, page);
                    assert(add_evidence(q2, a0.region_evidence@, a0.region_evidence@.len()) == (
                        page_model(page),
                        true,
                    ));
                    assert(apply_addition(m0, a0).0 == m0.update(p as int, page_model(page)));
                }
                return Err(refusal("evidence owner region is absent"));
            },
            Some(r) => {
                let ghost before_regions = page.regions@;
                let ghost qb = page_model(page);
                proof {

                }
                assert(region_at(qb.regions, ev.region_id@) == Some(r as int));
                let mut region = page.regions.remove(r);
                let ghost rm = region_model(region);
                assert(rm == qb.regions[r as int]);
                let RegionEvidenceAddition { region_id: _, mut evidence } = ev;
                let ghost added = evidence@;
                region.evidence.append(&mut evidence);
                page.regions.insert(r, region);
                proof {
                    assert(page.regions@ =~= before_regions.update(r as int, region));
                    lemma_region_models_update(before_regions, r as int, region);
                    assert(region_model(region) == RegionModel { evidence: rm.evidence + added, ..rm });
                    assert(page_model(page) == PageModel {
                        regions: qb.regions.update(r as int, RegionModel { evidence: qb.regions[r as int].evidence + added, ..qb.regions[r as int] }),
                        ..qb
                    });
                }
            },
        }
        j = j + 1;
    }
    assert(j == ne);
    let ghost q3 = page_model(page);
    page.reading_order.append(&mut reading_order_edges);
    pages.insert(p, page);
    proof {
        assert(pages@ =~= old_pages.update(p as int, page));
        lemma_page_models_update(old_pages, p as int, page);
        assert(add_evidence(q2, a0.region_evidence@, a0.region_evidence@.len()) == (q3, false));
        assert(page_model(page) == PageModel { reading_order: q3.reading_order + a0.reading_order_edges@, ..q3 });
        assert(apply_addition(m0, a0).0 == m0.update(p as int, page_model(page)));
    }
    Ok(())
}

/// Applies one selection hint.
fn apply_one_hint(pages: &mut Vec<Page>, h: SelectionHint) -> (r: Result<(), IrError>)
    ensures
        page_models(final(pages)@) == apply_hint(page_models(old(pages)@), h).0,
        match apply_hint(page_models(old(pages)@), h).1 {
            None => r is Ok,
            Some(m) => r matches Err(IrError::Invalid(s)) && s@ == m,
        },
{
    let ghost h0 = h;
    let ghost old_pages = pages@;
    let ghost m0 = page_models(pages@);
    let p = match find_page_index(pages, &h.region.page_id) {
        None => {
            return Err(refusal("selection-hint page is absent"));
        },
        Some(p) => p,
    };
    proof {
        lemma_page_at_found(m0, h.region.page_id@);
    }
    assert(region_models(pages@[p as int].regions@) == m0[p as int].regions);
    let r = match find_region_index(&pages[p].regions, &h.region.region_id) {
        None => {
            return Err(refusal("selection-hint region is absent"));
        },
        Some(r) => r,
    };
    let conflict = match &pages[p].regions[r].selected {
        Some(current) => !same_view(current, &h.selected),
        None => false,
    };
    assert(region_model(pages@[p as int].regions@[r as int]) == m0[p as int].regions[r as int]);
    if conflict {
        return Err(refusal("conflicting selection hints require a different reconciliation policy"));
    }
    let mut page = pages.remove(p);
    let ghost pm = page_model(page);
    let ghost before_regions = page.regions@;
    let mut region = page.regions.remove(r);
    let ghost rm = region_model(region);
    let SelectionHint { region: _, selected } = h;
    region.selected = Some(selected);
    page.regions.insert(r, region);
    pages.insert(p, page);
    proof {
        assert(page.regions@ =~= before_regions.update(r as int, region));
        lemma_region_models_update(before_regions, r as int, region);
        assert(region_model(region) == RegionModel { selected: Some(h0.selected), ..rm });
        assert(pages@ =~= old_pages.update(p as int, page));
        lemma_page_models_update(old_pages, p as int, page);
        assert(page_model(page) == PageModel {
            regions: pm.regions.update(r as int, RegionModel { selected: Some(h0.selected), ..pm.regions[r as int] }),
            ..pm
        });
    }
    Ok(())
}

/// Applies an evidence delta to a document. Pages are only ever added, never replaced,
/// and a region's selected view is only set where none differs; a refusal leaves the
/// document as far as the delta got, as `delta_outcome` states.
pub fn apply_delta(document: &mut Document, delta: EvidenceDelta) -> (r: Result<(), IrError>)
    ensures
        final(document).schema_version == old(document).schema_version,
        final(document).id == old(document).id,
        final(document).input_digest == old(document).input_digest,
        page_models(final(document).pages@) == delta_outcome(*old(document), delta).0,
        pages_extend(page_models(old(document).pages@), page_models(final(document).pages@)),
        match delta_outcome(*old(document), delta).1 {
            None => r is Ok,
            Some(m) => r matches Err(IrError::Invalid(s)) && s@ == m,
        },
{
    let ghost d0 = delta;
    let ghost doc0 = *document;
    proof {
        lemma_delta_preserves_evidence(doc0, d0);
    }
    match precheck(document, &delta) {
        Ok(()) => {},
        Err(e) => {
            return Err(e);
        },
    }
    let EvidenceDelta { new_pages, page_additions, selection_hints, .. } = delta;
    let ghost start = page_models(doc0.pages@);
    if add_pages(&mut document.pages, new_pages) {
        return Err(refusal("delta attempts to replace a page"));
    }
    let ghost p1 = page_models(document.pages@);
    assert(add_new_pages(start, d0.new_pages@, d0.new_pages@.len()) == (p1, false));
    let mut adds = page_additions;
    let na = adds.len();
    let mut k: usize = 0;
    assert(d0.page_additions@.skip(0) =~= d0.page_additions@);
    while adds.len() > 0
        invariant
            na == d0.page_additions@.len(),
            k <= na,
            adds@ == d0.page_additions@.skip(k as int),
            apply_additions(p1, d0.page_additions@, k as nat) == (page_models(document.pages@), None::<Seq<char>>),
            document.schema_version == doc0.schema_version,
            document.id == doc0.id,
            document.input_digest == doc0.input_digest,
            delta_precheck(doc0, d0) is None,
            add_new_pages(start, d0.new_pages@, d0.new_pages@.len()) == (p1, false),
            start == page_models(doc0.pages@),
            doc0 == *old(document),
            d0 == delta,
        decreases adds@.len(),
    {
        assert(k < na);
        let a = adds.remove(0);
        assert(a == d0.page_additions@[k as int]);
        assert(adds@ =~= d0.page_additions@.skip(k + 1));
        match apply_one_addition(&mut document.pages, a) {
            Ok(()) => {},
            Err(e) => {
                proof {
                    lemma_additions_stick(p1, d0.page_additions@, (k + 1) as nat, na as nat);
                    lemma_delta_preserves_evidence(doc0, d0);
                }
                return Err(e);
            },
        }
        k = k + 1;
    }
    let ghost p2 = page_models(document.pages@);
    let mut hints = selection_hints;
    let nh = hints.len();
    let mut j: usize = 0;
    assert(d0.selection_hints@.skip(0) =~= d0.selection_hints@);
    while hints.len() > 0
        invariant
            nh == d0.selection_hints@.len(),
            j <= nh,
            hints@ == d0.selection_hints@.skip(j as int),
            apply_hints(p2, d0.selection_hints@, j as nat) == (page_models(document.pages@), None::<Seq<char>>),
            apply_additions(p1, d0.page_additions@, d0.page_additions@.len()) == (p2, None::<Seq<char>>),
            document.schema_version == doc0.schema_version,
            document.id == doc0.id,
            document.input_digest == doc0.input_digest,
            delta_precheck(doc0, d0) is None,
            add_new_pages(start, d0.new_pages@, d0.new_pages@.len()) == (p1, false),
            start == page_models(doc0.pages@),
            doc0 == *old(document),
            d0 == delta,
        decreases hints@.len(),
    {
        assert(j < nh);
        let h = hints.remove(0);
        assert(h == d0.selection_hints@[j as int]);
        assert(hints@ =~= d0.selection_hints@.skip(j + 1));
        match apply_one_hint(&mut document.pages, h) {
            Ok(()) => {},
            Err(e) => {
                proof {
                    lemma_hints_stick(p2, d0.selection_hints@, (j + 1) as nat, nh as nat);
                    lemma_delta_preserves_evidence(doc0, d0);
                }
                return Err(e);
            },
        }
        j = j + 1;
    }
    Ok(())
}

/// A region keeps what it held: its identity, its evidence as a prefix, and a selected
/// view, if it had one, unchanged.
pub open spec fn region_extends(o: RegionModel, n: RegionModel) -> bool {
    &&& n.id == o.id
    &&& o.evidence.is_prefix_of(n.evidence)
    &&& o.selected matches Some(s) ==> (n.selected matches Some(t) && same_selection(s, t))
}

/// A page keeps what it held: its identity, its layers, artifacts and reading order as
/// prefixes, and each of its regions, in place and extended.
pub open spec fn page_extends(o: PageModel, n: PageModel) -> bool {
    &&& n.id == o.id
    &&& n.index == o.index
    &&& o.layers.is_prefix_of(n.layers)
    &&& o.artifacts.is_prefix_of(n.artifacts)
    &&& o.reading_order.is_prefix_of(n.reading_order)
    &&& o.regions.len() <= n.regions.len()
    &&& forall|r: int| 0 <= r < o.regions.len() ==> region_extends(o.regions[r], #[trigger] n.regions[r])
}

/// Every page of `o` is still there, in place and extended; pages may only be added.
pub open spec fn pages_extend(o: Seq<PageModel>, n: Seq<PageModel>) -> bool {
    &&& o.len() <= n.len()
    &&& forall|p: int| 0 <= p < o.len() ==> page_extends(o[p], #[trigger] n[p])
}

proof fn lemma_page_extends_refl(a: PageModel)
    ensures
        page_extends(a, a),
{
    assert(a.layers.is_prefix_of(a.layers));
    assert(a.artifacts.is_prefix_of(a.artifacts));
    assert(a.reading_order.is_prefix_of(a.reading_order));
    assert forall|r: int| 0 <= r < a.regions.len() implies region_extends(a.regions[r], #[trigger] a.regions[r]) by {
        assert(a.regions[r].evidence.is_prefix_of(a.regions[r].evidence));
    }
}

proof fn lemma_page_extends_trans(a: PageModel, b: PageModel, c: PageModel)
    requires
        page_extends(a, b),
        page_extends(b, c),
    ensures
        page_extends(a, c),
{
    assert forall|r: int| 0 <= r < a.regions.len() implies region_extends(a.regions[r], #[trigger] c.regions[r]) by {
        assert(region_extends(a.regions[r], b.regions[r]));
        assert(region_extends(b.regions[r], c.regions[r]));
    }
}

proof fn lemma_pages_extend_refl(a: Seq<PageModel>)
    ensures
        pages_extend(a, a),
{
    assert forall|p: int| 0 <= p < a.len() implies page_extends(a[p], #[trigger] a[p]) by {
        lemma_page_extends_refl(a[p]);
    }
}

proof fn lemma_pages_extend_trans(a: Seq<PageModel>, b: Seq<PageModel>, c: Seq<PageModel>)
    requires
        pages_extend(a, b),
        pages_extend(b, c),
    ensures
        pages_extend(a, c),
{
    assert forall|p: int| 0 <= p < a.len() implies page_extends(a[p], #[trigger] c[p]) by {
        lemma_page_extends_trans(a[p], b[p], c[p]);
    }
}

/// Replacing one page by an extension of it extends the pages.
proof fn lemma_update_extends(ps: Seq<PageModel>, p: int, q: PageModel)
    requires
        0 <= p < ps.len(),
        page_extends(ps[p], q),
    ensures
        pages_extend(ps, ps.update(p, q)),
{
    assert forall|k: int| 0 <= k < ps.len() implies page_extends(ps[k], #[trigger] ps.update(p, q)[k]) by {
        if k != p {
            lemma_page_extends_refl(ps[k]);
        }
    }
}

proof fn lemma_new_pages_extend(ps: Seq<PageModel>, news: Seq<Page>, n: nat)
    ensures
        pages_extend(ps, add_new_pages(ps, news, n).0),
    decreases n,
{
    if n == 0 {
        lemma_pages_extend_refl(ps);
    } else {
        lemma_new_pages_extend(ps, news, (n - 1) as nat);
        let qs = add_new_pages(ps, news, (n - 1) as nat).0;
        let rs = add_new_pages(ps, news, n).0;
        assert(pages_extend(qs, rs)) by {
            assert forall|p: int| 0 <= p < qs.len() implies page_extends(qs[p], #[trigger] rs[p]) by {
                lemma_page_extends_refl(qs[p]);
            }
        }
        lemma_pages_extend_trans(ps, qs, rs);
    }
}

proof fn lemma_layers_extend(page: PageModel, a: PageDelta, n: nat)
    ensures
        page_extends(page, add_layers(page, a, n).0),
    decreases n,
{
    if n == 0 {
        lemma_page_extends_refl(page);
    } else {
        lemma_layers_extend(page, a, (n - 1) as nat);
        let q = add_layers(page, a, (n - 1) as nat).0;
        let r = add_layers(page, a, n).0;
        lemma_page_extends_refl(q);
        assert(q.layers.is_prefix_of(r.layers));
        assert(page_extends(q, r));
        lemma_page_extends_trans(page, q, r);
    }
}

proof fn lemma_evidence_extends(page: PageModel, adds: Seq<RegionEvidenceAddition>, n: nat)
    ensures
        page_extends(page, add_evidence(page, adds, n).0),
    decreases n,
{
    if n == 0 {
        lemma_page_extends_refl(page);
    } else {
        lemma_evidence_extends(page, adds, (n - 1) as nat);
        let q = add_evidence(page, adds, (n - 1) as nat).0;
        let r = add_evidence(page, adds, n).0;
        lemma_page_extends_refl(q);
        if !add_evidence(page, adds, (n - 1) as nat).1 {
            match region_at(q.regions, adds[n - 1].region_id@) {
                None => {},
                Some(k) => {
                    lemma_region_at_found(q.regions, adds[n - 1].region_id@);
                    assert forall|j: int| 0 <= j < q.regions.len() implies region_extends(
                        q.regions[j],
                        #[trigger] r.regions[j],
                    ) by {
                        assert(q.regions[j].evidence.is_prefix_of(r.regions[j].evidence));
                    }
                },
            }
        }
        assert(page_extends(q, r));
        lemma_page_extends_trans(page, q, r);
    }
}

proof fn lemma_addition_extends(ps: Seq<PageModel>, a: PageDelta)
    ensures
        pages_extend(ps, apply_addition(ps, a).0),
{
    match page_at(ps, a.page_id@) {
        None => {
            lemma_pages_extend_refl(ps);
        },
        Some(p) => {
            lemma_page_at_found(ps, a.page_id@);
            lemma_layers_extend(ps[p], a, a.source_layers@.len());
            let (q1, f1) = add_layers(ps[p], a, a.source_layers@.len());
            if f1 {
                lemma_update_extends(ps, p, q1);
            } else {
                let q2 = PageModel {
                    artifacts: q1.artifacts + a.render_artifacts@,
                    regions: q1.regions + region_models(a.regions@),
                    ..q1
                };
                assert(page_extends(q1, q2)) by {
                    lemma_page_extends_refl(q1);
                    assert(q1.artifacts.is_prefix_of(q2.artifacts));
                    assert forall|r: int| 0 <= r < q1.regions.len() implies region_extends(
                        q1.regions[r],
                        #[trigger] q2.regions[r],
                    ) by {
                        assert(q2.regions[r] == q1.regions[r]);
                        assert(q1.regions[r].evidence.is_prefix_of(q1.regions[r].evidence));
                    }
                }
                lemma_evidence_extends(q2, a.region_evidence@, a.region_evidence@.len());
                let (q3, f3) = add_evidence(q2, a.region_evidence@, a.region_evidence@.len());
                lemma_page_extends_trans(ps[p], q1, q2);
                lemma_page_extends_trans(ps[p], q2, q3);
                if f3 {
                    lemma_update_extends(ps, p, q3);
                } else {
                    let q4 = PageModel { reading_order: q3.reading_order + a.reading_order_edges@, ..q3 };
                    assert(page_extends(q3, q4)) by {
                        lemma_page_extends_refl(q3);
                        assert(q3.reading_order.is_prefix_of(q4.reading_order));
                    }
                    lemma_page_extends_trans(ps[p], q3, q4);
                    lemma_update_extends(ps, p, q4);
                }
            }
        },
    }
}

proof fn lemma_additions_extend(ps: Seq<PageModel>, adds: Seq<PageDelta>, n: nat)
    ensures
        pages_extend(ps, apply_additions(ps, adds, n).0),
    decreases n,
{
    if n == 0 {
        lemma_pages_extend_refl(ps);
    } else {
        lemma_additions_extend(ps, adds, (n - 1) as nat);
        let (qs, e) = apply_additions(ps, adds, (n - 1) as nat);
        if e is None {
            lemma_addition_extends(qs, adds[n - 1]);
            lemma_pages_extend_trans(ps, qs, apply_addition(qs, adds[n - 1]).0);
        }
    }
}

proof fn lemma_hint_extends(ps: Seq<PageModel>, h: SelectionHint)
    ensures
        pages_extend(ps, apply_hint(ps, h).0),
{
    lemma_pages_extend_refl(ps);
    match page_at(ps, h.region.page_id@) {
        None => {},
        Some(p) => {
            lemma_page_at_found(ps, h.region.page_id@);
            match region_at(ps[p].regions, h.region.region_id@) {
                None => {},
                Some(r) => {
                    lemma_region_at_found(ps[p].regions, h.region.region_id@);
                    if !(ps[p].regions[r].selected matches Some(s) && !same_selection(s, h.selected)) {
                        let q = PageModel {
                            regions: ps[p].regions.update(
                                r,
                                RegionModel { selected: Some(h.selected), ..ps[p].regions[r] },
                            ),
                            ..ps[p]
                        };
                        assert(page_extends(ps[p], q)) by {
                            lemma_page_extends_refl(ps[p]);
                            assert forall|j: int| 0 <= j < ps[p].regions.len() implies region_extends(
                                ps[p].regions[j],
                                #[trigger] q.regions[j],
                            ) by {
                                assert(ps[p].regions[j].evidence.is_prefix_of(q.regions[j].evidence));
                                if j == r {
                                    match ps[p].regions[r].selected {
                                        Some(s) => {
                                            assert(same_selection(s, h.selected));
                                        },
                                        None => {},
                                    }
                                }
                            }
                        }
                        lemma_update_extends(ps, p, q);
                    }
                },
            }
        },
    }
}

proof fn lemma_hints_extend(ps: Seq<PageModel>, hints: Seq<SelectionHint>, n: nat)
    ensures
        pages_extend(ps, apply_hints(ps, hints, n).0),
    decreases n,
{
    if n == 0 {
        lemma_pages_extend_refl(ps);
    } else {
        lemma_hints_extend(ps, hints, (n - 1) as nat);
        let (qs, e) = apply_hints(ps, hints, (n - 1) as nat);
        if e is None {
            lemma_hint_extends(qs, hints[n - 1]);
            lemma_pages_extend_trans(ps, qs, apply_hint(qs, hints[n - 1]).0);
        }
    }
}

/// A delta never overwrites existing evidence, whether it is applied or refused part way:
/// every page of the document is still there, in place, with its layers, artifacts,
/// reading order and regions kept; each region keeps its evidence as a prefix, and a
/// selected view it already had is kept unchanged. Pages may only be added.
pub proof fn lemma_delta_preserves_evidence(d: Document, delta: EvidenceDelta)
    ensures
        pages_extend(page_models(d.pages@), delta_outcome(d, delta).0),
{
    let start = page_models(d.pages@);
    lemma_pages_extend_refl(start);
    if delta_precheck(d, delta) is None {
        lemma_new_pages_extend(start, delta.new_pages@, delta.new_pages@.len());
        let (p1, f1) = add_new_pages(start, delta.new_pages@, delta.new_pages@.len());
        if !f1 {
            lemma_additions_extend(p1, delta.page_additions@, delta.page_additions@.len());
            let (p2, e2) = apply_additions(p1, delta.page_additions@, delta.page_additions@.len());
            lemma_pages_extend_trans(start, p1, p2);
            if e2 is None {
                lemma_hints_extend(p2, delta.selection_hints@, delta.selection_hints@.len());
                lemma_pages_extend_trans(start, p2, apply_hints(p2, delta.selection_hints@, delta.selection_hints@.len()).0);
            }
        }
    }
}
} // verus!
