//! Assembling a page's regions from native text, layout records and OCR records.
//!
//! Native evidence is never overwritten: on a page that needed OCR the native record
//! stays among the region's evidence even where the OCR text covers it and is selected
//! in its place; on other pages each region keeps the native record beside the layout
//! record it came from.

use vstd::prelude::*;
use vstd::string::StringSliceAdditionalSpecFns;

use crate::canonical::owned;
use crate::digest::Sha256Digest;
use crate::id::{
    be_digits, evidence_prefix, parts_view, push_be, region_prefix, stable_id_text, EvidenceId,
    LayerId, RegionId,
};
use crate::ir::{
    Evidence, EvidenceContent, Placement, ReadingOrderEdge, Region, RegionKind, SelectedView,
    SelectionReason,
};
use crate::runtime::{
    occurs_in, reconciled_explanation, reconciled_ids, reconciled_selection,
    sequential_reading_order, text_contains,
};

verus! {

/// One layout record with what the host read beside it: the region kind its engine
/// named, if any, and where its geometry lies against the page bounds (inside when it
/// has none).
pub struct LayoutItem {
    /// The layout record.
    pub evidence: Evidence,
    /// Region kind named by the engine's metadata.
    pub kind: Option<RegionKind>,
    /// Placement of the record's geometry against the page bounds.
    pub placement: Placement,
}

/// The text of a text record.
pub open spec fn text_of(e: Evidence) -> Option<Seq<char>> {
    match e.content {
        EvidenceContent::Text { text } => Some(text@),
        _ => None,
    }
}

/// The identity text of the native record of `text` on `page`, at position `index`.
pub open spec fn native_id_text(digest: Sha256Digest, page: u32, index: u64, text: Seq<char>) -> Seq<char> {
    stable_id_text(
        evidence_prefix(),
        seq![digest@, be_digits(page as nat, 4), be_digits(index as nat, 8), vstd::utf8::encode_utf8(text)],
    )
}

/// `e` is the native record of `text` on `page` at position `index`, in the native layer.
pub open spec fn is_native_record(
    e: Evidence,
    layer: LayerId,
    digest: Sha256Digest,
    text: Seq<char>,
    page: u32,
    index: u64,
) -> bool {
    &&& e.id@ == native_id_text(digest, page, index, text)
    &&& e.layer_id == layer
    &&& text_of(e) == Some(text)
    &&& e.geometry_page == Some(page)
}

/// The explanation of a native-quality selection.
pub open spec fn native_explanation() -> Seq<char> {
    "native evidence met the configured quality threshold"@
}

/// `s` selects exactly the native record `id`, for its quality.
pub open spec fn selects_native(s: Option<SelectedView>, id: EvidenceId) -> bool {
    &&& s matches Some(v)
    &&& v.evidence_ids@ == seq![id]
    &&& v.reason == SelectionReason::NativeQuality
    &&& v.explanation@ == native_explanation()
}

/// Region identity of the layout record at `index` on `page`.
pub open spec fn layout_region_id(digest: Sha256Digest, page: u32, index: u64) -> Seq<char> {
    stable_id_text(region_prefix(), seq![digest@, be_digits(page as nat, 4), be_digits(index as nat, 8)])
}

/// Region identity of a page's single native region.
pub open spec fn native_region_id(digest: Sha256Digest, page: u32) -> Seq<char> {
    stable_id_text(region_prefix(), seq![digest@, be_digits(page as nat, 4)])
}

/// Region identity of a page's reconciled OCR region.
pub open spec fn reconciled_region_id(digest: Sha256Digest, page: u32) -> Seq<char> {
    stable_id_text(region_prefix(), seq![digest@, be_digits(page as nat, 4), "reconciled".spec_bytes()])
}

/// Positions of the text records among the first `n` layout items.
pub open spec fn text_indices(items: Seq<LayoutItem>, n: nat) -> Seq<int>
    decreases n,
{
    if n == 0 {
        seq![]
    } else {
        let p = text_indices(items, (n - 1) as nat);
        if text_of(items[n - 1].evidence) is Some {
            p.push(n - 1)
        } else {
            p
        }
    }
}

/// The region built from the text layout item at position `k`: the native record of the
/// item's text (on the item's page) beside the item itself, with the native record selected.
pub open spec fn is_layout_region(
    g: Region,
    item: LayoutItem,
    k: int,
    page_index: u32,
    digest: Sha256Digest,
    layer: LayerId,
) -> bool {
    let page = match item.evidence.geometry_page {
        Some(p) => p,
        None => page_index,
    };
    &&& g.id@ == layout_region_id(digest, page_index, k as u64)
    &&& g.kind == (match item.kind {
        Some(kind) => kind,
        None => RegionKind::Paragraph,
    })
    &&& g.geometry_page == page
    &&& g.placement == item.placement
    &&& g.evidence@.len() == 2
    &&& is_native_record(g.evidence@[0], layer, digest, text_of(item.evidence)->Some_0, page, k as u64)
    &&& g.evidence@[1] == item.evidence
    &&& selects_native(g.selected, g.evidence@[0].id)
}

/// The single native region of a page without usable layout text.
pub open spec fn is_native_region(
    g: Region,
    native_text: Seq<char>,
    page_index: u32,
    digest: Sha256Digest,
    layer: LayerId,
) -> bool {
    &&& g.id@ == native_region_id(digest, page_index)
    &&& g.kind == RegionKind::Paragraph
    &&& g.geometry_page == page_index
    &&& g.placement == Placement::Inside
    &&& g.evidence@.len() == 1
    &&& is_native_record(g.evidence@[0], layer, digest, native_text, page_index, 0)
    &&& selects_native(g.selected, g.evidence@[0].id)
}

/// OCR covers the native text: it is nonempty and occurs in the text of an OCR record.
pub open spec fn ocr_evidence_covers(native_text: Seq<char>, ocr: Seq<Evidence>) -> bool {
    native_text.len() > 0 && exists|k: int|
        0 <= k < ocr.len() && (#[trigger] text_of(ocr[k])) is Some && occurs_in(
            text_of(ocr[k])->Some_0,
            native_text,
        )
}

/// The identities of records, in order.
pub open spec fn evidence_ids(es: Seq<Evidence>) -> Seq<EvidenceId> {
    es.map_values(|e: Evidence| e.id)
}

/// The records of layout items, in order.
pub open spec fn layout_evidence(items: Seq<LayoutItem>) -> Seq<Evidence> {
    items.map_values(|i: LayoutItem| i.evidence)
}

/// The reconciled region of a page that needed OCR: every layout record, then the native
/// record when there is native text, then every OCR record; the selection is the
/// reconciled one, which keeps the native record available even when OCR covers it.
pub open spec fn is_reconciled_region(
    g: Region,
    layout: Seq<Evidence>,
    ocr: Seq<Evidence>,
    native_text: Seq<char>,
    page_index: u32,
    digest: Sha256Digest,
    layer: LayerId,
) -> bool {
    let n: int = if native_text.len() > 0 {
        1
    } else {
        0
    };
    let l = layout.len() as int;
    let native = if n == 1 {
        Some(g.evidence@[l].id)
    } else {
        None
    };
    let covered = ocr_evidence_covers(native_text, ocr);
    let ids = reconciled_ids(native, covered, evidence_ids(ocr));
    &&& g.id@ == reconciled_region_id(digest, page_index)
    &&& g.kind == RegionKind::Paragraph
    &&& g.geometry_page == page_index
    &&& g.placement == Placement::Inside
    &&& g.evidence@.len() == l + n + ocr.len()
    &&& g.evidence@.take(l) == layout
    &&& g.evidence@.skip(l + n) == ocr
    &&& n == 1 ==> is_native_record(g.evidence@[l], layer, digest, native_text, page_index, 0)
    &&& ids.len() == 0 ==> g.selected is None
    &&& ids.len() > 0 ==> (g.selected matches Some(v) && v.evidence_ids@ == ids && v.reason == (
    if n == 1 {
        SelectionReason::Reconciled
    } else {
        SelectionReason::NativeAbsent
    }) && v.explanation@ == reconciled_explanation(n == 1, covered))
}

/// Reading order through the regions in sequence: one edge per consecutive pair.
pub open spec fn sequential_order(regions: Seq<Region>, order: Seq<ReadingOrderEdge>) -> bool {
    &&& order.len() == if regions.len() == 0 {
        0
    } else {
        regions.len() - 1
    }
    &&& forall|k: int|
        0 <= k < order.len() ==> (#[trigger] order[k]).before == regions[k].id && order[k].after
            == regions[k + 1].id
}

/// The native record of `text` on `page` at position `index`.
fn native_record(layer: &LayerId, digest: &Sha256Digest, text: &str, page: u32, index: u64) -> (e: Evidence)
    ensures
        is_native_record(e, *layer, *digest, text@, page, index),
{
    let d = digest.as_bytes();
    let mut pb: Vec<u8> = Vec::new();
    push_be(&mut pb, page as u64, 4);
    let mut ib: Vec<u8> = Vec::new();
    push_be(&mut ib, index, 8);
    let parts: [&[u8]; 4] = [d.as_slice(), pb.as_slice(), ib.as_slice(), text.as_bytes()];
    let id = EvidenceId::derive(&parts);
    assert(parts_view(parts@) =~= seq![
        digest@,
        be_digits(page as nat, 4),
        be_digits(index as nat, 8),
        vstd::utf8::encode_utf8(text@),
    ]);
    Evidence {
        id,
        layer_id: layer.clone(),
        content: EvidenceContent::Text { text: owned(text) },
        geometry_page: Some(page),
    }
}

/// The selection of the native record `id` for its quality.
fn native_selection(id: EvidenceId) -> (s: SelectedView)
    ensures
        selects_native(Some(s), id),
{
    let ids = vec![id];
    assert(ids@ =~= seq![id]);
    let s = SelectedView {
        evidence_ids: ids,
        reason: SelectionReason::NativeQuality,
        explanation: owned("native evidence met the configured quality threshold"),
    };
    s
}

/// Region identity of the layout record at `index` on `page`.
fn layout_region(digest: &Sha256Digest, page: u32, index: u64) -> (id: RegionId)
    ensures
        id@ == layout_region_id(*digest, page, index),
{
    let d = digest.as_bytes();
    let mut pb: Vec<u8> = Vec::new();
    push_be(&mut pb, page as u64, 4);
    let mut ib: Vec<u8> = Vec::new();
    push_be(&mut ib, index, 8);
    let parts: [&[u8]; 3] = [d.as_slice(), pb.as_slice(), ib.as_slice()];
    let id = RegionId::derive(&parts);
    assert(parts_view(parts@) =~= seq![digest@, be_digits(page as nat, 4), be_digits(index as nat, 8)]);
    id
}

/// Region identity of a page's single native region.
fn native_region(digest: &Sha256Digest, page: u32) -> (id: RegionId)
    ensures
        id@ == native_region_id(*digest, page),
{
    let d = digest.as_bytes();
    let mut pb: Vec<u8> = Vec::new();
    push_be(&mut pb, page as u64, 4);
    let parts: [&[u8]; 2] = [d.as_slice(), pb.as_slice()];
    let id = RegionId::derive(&parts);
    assert(parts_view(parts@) =~= seq![digest@, be_digits(page as nat, 4)]);
    id
}

/// Region identity of a page's reconciled OCR region.
fn reconciled_region(digest: &Sha256Digest, page: u32) -> (id: RegionId)
    ensures
        id@ == reconciled_region_id(*digest, page),
{
    let d = digest.as_bytes();
    let mut pb: Vec<u8> = Vec::new();
    push_be(&mut pb, page as u64, 4);
    let label = "reconciled";
    let parts: [&[u8]; 3] = [d.as_slice(), pb.as_slice(), label.as_bytes()];
    let id = RegionId::derive(&parts);
    assert(parts_view(parts@) =~= seq![digest@, be_digits(page as nat, 4), "reconciled".spec_bytes()]);
    id
}

/// True when OCR covered the native text.
fn ocr_covers_records(native_text: &str, ocr: &Vec<Evidence>) -> (r: bool)
    ensures
        r == ocr_evidence_covers(native_text@, ocr@),
{
    if native_text.is_empty() {
        return false;
    }
    let mut k: usize = 0;
    while k < ocr.len()
        invariant
            native_text@.len() > 0,
            k <= ocr@.len(),
            forall|q: int|
                0 <= q < k ==> !((#[trigger] text_of(ocr@[q])) is Some && occurs_in(
                    text_of(ocr@[q])->Some_0,
                    native_text@,
                )),
        decreases ocr@.len() - k,
    {
        match &ocr[k].content {
            EvidenceContent::Text { text } => {
                if text_contains(text.as_str(), native_text) {
                    assert(text_of(ocr@[k as int]) is Some);
                    return true;
                }
            },
            _ => {},
        }
        assert(!(text_of(ocr@[k as int]) is Some && occurs_in(text_of(ocr@[k as int])->Some_0, native_text@)));
        k = k + 1;
    }
    false
}

/// Assembles the regions of one page and their reading order.
///
/// A page that needed OCR gets one reconciled region holding every layout record, then
/// the native record (when there is native text), then every OCR record; native evidence
/// stays there even when the OCR text covers it and is selected in its place. Any other
/// page gets one region per text layout record, holding the native record of that text
/// beside the layout record and selecting the native record; without such records, a
/// page with native text gets one native region. Regions are read in sequence.
pub fn reconcile_page(
    page_index: u32,
    input_digest: &Sha256Digest,
    native_layer_id: &LayerId,
    native_text: &str,
    layout: Option<Vec<LayoutItem>>,
    ocr: Option<Vec<Evidence>>,
    needs_ocr: bool,
) -> (r: (Vec<Region>, Vec<ReadingOrderEdge>))
    ensures
        sequential_order(r.0@, r.1@),
        ({
            let items = match layout {
                Some(v) => v@,
                None => seq![],
            };
            let ocr_records = match ocr {
                Some(v) => v@,
                None => seq![],
            };
            let ti = text_indices(items, items.len());
            if needs_ocr {
                &&& r.0@.len() == 1
                &&& is_reconciled_region(
                    r.0@[0],
                    layout_evidence(items),
                    ocr_records,
                    native_text@,
                    page_index,
                    *input_digest,
                    *native_layer_id,
                )
            } else if ti.len() > 0 {
                &&& r.0@.len() == ti.len()
                &&& forall|j: int|
                    0 <= j < ti.len() ==> is_layout_region(
                        #[trigger] r.0@[j],
                        items[ti[j]],
                        ti[j],
                        page_index,
                        *input_digest,
                        *native_layer_id,
                    )
            } else if native_text@.len() > 0 {
                &&& r.0@.len() == 1
                &&& is_native_region(r.0@[0], native_text@, page_index, *input_digest, *native_layer_id)
            } else {
                r.0@.len() == 0
            }
        }),
{
    let items = match layout {
        Some(v) => v,
        None => Vec::new(),
    };
    let ghost all = items@;
    let total = items.len();
    if needs_ocr {
        let mut evidence: Vec<Evidence> = Vec::new();
        let mut rest = items;
        let mut k: usize = 0;
        assert(all.skip(0) =~= all);
        while rest.len() > 0
            invariant
                k <= all.len(),
                total == all.len(),
                rest@ == all.skip(k as int),
                evidence@ == layout_evidence(all).take(k as int),
            decreases rest@.len(),
        {
            assert(rest@.len() == all.len() - k);
            let item = rest.remove(0);
            assert(item == all[k as int]);
            let LayoutItem { evidence: e, kind: _, placement: _ } = item;
            evidence.push(e);
            assert(rest@ =~= all.skip(k + 1));
            assert(evidence@ =~= layout_evidence(all).take(k + 1));
            k = k + 1;
        }
        assert(k == all.len());
        assert(layout_evidence(all).take(k as int) =~= layout_evidence(all));
        let ghost l = evidence@.len();
        let native_id: Option<EvidenceId> = if !native_text.is_empty() {
            let native = native_record(native_layer_id, input_digest, native_text, page_index, 0);
            let id = native.id.clone();
            evidence.push(native);
            Some(id)
        } else {
            None
        };
        let ghost head = evidence@;
        let mut ocr_records = match ocr {
            Some(v) => v,
            None => Vec::new(),
        };
        let ghost ocr0 = ocr_records@;
        let covered = ocr_covers_records(native_text, &ocr_records);
        let mut ocr_ids: Vec<EvidenceId> = Vec::new();
        let mut q: usize = 0;
        while q < ocr_records.len()
            invariant
                q <= ocr_records@.len(),
                ocr_records@ == ocr0,
                ocr_ids@ == evidence_ids(ocr0).take(q as int),
            decreases ocr_records@.len() - q,
        {
            ocr_ids.push(ocr_records[q].id.clone());
            assert(ocr_ids@ =~= evidence_ids(ocr0).take(q + 1));
            q = q + 1;
        }
        assert(evidence_ids(ocr0).take(q as int) =~= evidence_ids(ocr0));
        evidence.append(&mut ocr_records);
        assert(evidence@ =~= head + ocr0);
        let selected = reconciled_selection(native_id, covered, ocr_ids);
        let region = Region {
            id: reconciled_region(input_digest, page_index),
            kind: RegionKind::Paragraph,
            geometry_page: page_index,
            placement: Placement::Inside,
            evidence,
            selected,
        };
        proof {
            let n: int = if native_text@.len() > 0 { 1 } else { 0 };
            assert(region.evidence@.take(l as int) =~= layout_evidence(all));
            assert(region.evidence@.skip(l + n) =~= ocr0);
            if n == 1 {
                assert(region.evidence@[l as int] == head[l as int]);
            }
        }
        let regions = vec![region];
        let order: Vec<ReadingOrderEdge> = Vec::new();
        return (regions, order);
    }
    let mut regions: Vec<Region> = Vec::new();
    let mut rest = items;
    let mut k: usize = 0;
    assert(all.skip(0) =~= all);
    while rest.len() > 0
        invariant
            k <= all.len(),
            total == all.len(),
            rest@ == all.skip(k as int),
            regions@.len() == text_indices(all, k as nat).len(),
            forall|j: int|
                0 <= j < regions@.len() ==> is_layout_region(
                    #[trigger] regions@[j],
                    all[text_indices(all, k as nat)[j]],
                    text_indices(all, k as nat)[j],
                    page_index,
                    *input_digest,
                    *native_layer_id,
                ),
        decreases rest@.len(),
    {
        assert(rest@.len() == all.len() - k);
        let item = rest.remove(0);
        assert(item == all[k as int]);
        assert(rest@ =~= all.skip(k + 1));
        let ghost before = regions@;
        let ghost prev = text_indices(all, k as nat);
        let LayoutItem { evidence, kind, placement } = item;
        let page = match evidence.geometry_page {
            Some(p) => p,
            None => page_index,
        };
        let native = match &evidence.content {
            EvidenceContent::Text { text } => Some(
                native_record(native_layer_id, input_digest, text.as_str(), page, k as u64),
            ),
            _ => None,
        };
        match native {
            Some(native) => {
                let nid = native.id.clone();
                let region = Region {
                    id: layout_region(input_digest, page_index, k as u64),
                    kind: match kind {
                        Some(x) => x,
                        None => RegionKind::Paragraph,
                    },
                    geometry_page: page,
                    placement,
                    evidence: vec![native, evidence],
                    selected: Some(native_selection(nid)),
                };
                regions.push(region);
                proof {
                    assert(text_indices(all, (k + 1) as nat) == prev.push(k as int));
                    assert forall|j: int| 0 <= j < regions@.len() implies is_layout_region(
                        #[trigger] regions@[j],
                        all[text_indices(all, (k + 1) as nat)[j]],
                        text_indices(all, (k + 1) as nat)[j],
                        page_index,
                        *input_digest,
                        *native_layer_id,
                    ) by {
                        if j < before.len() {
                            assert(regions@[j] == before[j]);
                        }
                    }
                }
            },
            None => {
                proof {
                    assert(text_indices(all, (k + 1) as nat) == prev);
                }
            },
        }
        k = k + 1;
    }
    assert(k == all.len());
    if regions.len() == 0 && !native_text.is_empty() {
        let native = native_record(native_layer_id, input_digest, native_text, page_index, 0);
        let nid = native.id.clone();
        regions.push(
            Region {
                id: native_region(input_digest, page_index),
                kind: RegionKind::Paragraph,
                geometry_page: page_index,
                placement: Placement::Inside,
                evidence: vec![native],
                selected: Some(native_selection(nid)),
            },
        );
    }
    let mut ids: Vec<RegionId> = Vec::new();
    let mut j: usize = 0;
    while j < regions.len()
        invariant
            j <= regions@.len(),
            ids@.len() == j,
            forall|q: int| 0 <= q < j ==> #[trigger] ids@[q] == regions@[q].id,
        decreases regions@.len() - j,
    {
        ids.push(regions[j].id.clone());
        j = j + 1;
    }
    let order = sequential_reading_order(ids.as_slice());
    (regions, order)
}

} // verus!
