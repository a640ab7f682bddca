//! Conversion policy and the input-specific conversion plan.

use vstd::prelude::*;

use crate::canonical::{owned, push_str};
use crate::digest::Sha256Digest;
use crate::engine::EngineError;
use crate::ir::IrError;
use crate::pdf::{PdfError, PdfLimits};
use crate::text::{chars_of, char_is_whitespace, decimal, is_whitespace, push_decimal, push_decimal_wide};

verus! {

/// Embedded runtime failure.
#[derive(Debug, Clone, PartialEq, Eq)]
pub enum RuntimeError {
    /// Descriptor validation or engine execution failed.
    Engine(EngineError),
    /// PDF acquisition or rendering failed.
    Pdf(PdfError),
    /// Selected IR failed validation.
    Ir(IrError),
    /// An engine ID was registered more than once.
    DuplicateEngine(String),
    /// No registered engine has the requested ID.
    UnknownEngine(String),
    /// OCR is required by policy but its model pair is unavailable.
    OcrUnavailable {
        /// Page which requires OCR.
        page_index: u32,
    },
    /// A capability-scoped enrichment request or stage is inconsistent.
    InvalidEnrichment(String),
}

/// Deterministic conversion policy.
#[derive(Debug, Clone, PartialEq, Eq)]
pub struct ConversionOptions {
    /// Minimum non-whitespace native characters needed to skip OCR.
    pub native_character_threshold: u32,
    /// Raster DPI used for OCR pages.
    pub ocr_dpi: u32,
    /// PDF parser and renderer limits.
    pub pdf_limits: PdfLimits,
}

impl Default for ConversionOptions {
    /// A threshold of 80 characters, 144 DPI, and the default PDF limits.
    fn default() -> (o: Self)
        ensures
            o.native_character_threshold == 80,
            o.ocr_dpi == 144,
            o.pdf_limits.maximum_pages == 10_000,
    {
        ConversionOptions {
            native_character_threshold: 80,
            ocr_dpi: 144,
            pdf_limits: PdfLimits::default(),
        }
    }
}

/// Whether one plan stage will execute.
#[derive(Debug, Clone, Copy, PartialEq, Eq)]
pub enum PlanDecision {
    /// Stage is selected.
    Selected,
    /// Stage is rejected by policy.
    Rejected,
    /// Stage is required but its dependency is unavailable.
    Unavailable,
}

/// Engine transport selected for a stage.
#[derive(Debug, Clone, Copy, PartialEq, Eq)]
pub enum ExecutionMode {
    /// Direct in-process trait call.
    Embedded,
    /// Framed isolated child process.
    Process,
}

/// One input-specific stage decision.
#[derive(Debug, Clone, PartialEq, Eq)]
pub struct PlannedStage {
    /// Page index, absent for document-wide work.
    pub page_index: Option<u32>,
    /// Stable stage name.
    pub stage: String,
    /// Selection result.
    pub decision: PlanDecision,
    /// Selected engine transport, absent for non-engine stages.
    pub execution: Option<ExecutionMode>,
    /// Deterministic explanation.
    pub explanation: String,
}

/// Actual plan derived after PDF inspection.
#[derive(Debug, Clone, PartialEq, Eq)]
pub struct ConversionPlan {
    /// Input digest.
    pub input_digest: Sha256Digest,
    /// Page count.
    pub page_count: u32,
    /// Ordered decisions.
    pub stages: Vec<PlannedStage>,
}

/// Deterministic trace event emitted by completed conversion work.
#[derive(Debug, Clone, PartialEq, Eq)]
pub struct TraceEvent {
    /// Page index, absent for document-wide work.
    pub page_index: Option<u32>,
    /// Stable event code.
    pub code: String,
    /// Engine transport used by the completed event.
    pub execution: Option<ExecutionMode>,
    /// Stable explanatory text.
    pub detail: String,
}

/// Conversion trace without timestamps or host observations.
#[derive(Debug, Clone, PartialEq, Eq)]
pub struct ConversionTrace {
    /// Ordered trace events.
    pub events: Vec<TraceEvent>,
}

/// The native text an inspected page yielded: its index and its text spans in order.
#[derive(Debug, Clone, PartialEq, Eq)]
pub struct PageText {
    /// Zero-based page index.
    pub index: u32,
    /// Native text spans.
    pub spans: Vec<String>,
}

/// Count of characters that are not whitespace.
pub open spec fn quality_count(s: Seq<char>) -> nat
    decreases s.len(),
{
    if s.len() == 0 {
        0
    } else {
        quality_count(s.drop_last()) + if is_whitespace(s.last()) {
            0nat
        } else {
            1nat
        }
    }
}

/// Non-whitespace characters of the first `k` spans.
pub open spec fn native_count(spans: Seq<String>, k: int) -> nat
    decreases k,
{
    if k <= 0 {
        0
    } else {
        native_count(spans, k - 1) + quality_count(spans[k - 1]@)
    }
}

/// Counts the characters of `text` that are not whitespace.
pub fn quality_characters(text: &str) -> (n: usize)
    ensures
        n == quality_count(text@),
{
    let v = chars_of(text);
    let mut n: usize = 0;
    let mut i: usize = 0;
    while i < v.len()
        invariant
            i <= v@.len(),
            n == quality_count(v@.take(i as int)),
            n <= i,
        decreases v@.len() - i,
    {
        assert(v@.take(i + 1).drop_last() == v@.take(i as int));
        if !char_is_whitespace(v[i]) {
            n = n + 1;
        }
        i = i + 1;
    }
    assert(v@.take(i as int) == v@);
    n
}

/// A stage as its page, name, decision, transport, and explanation.
pub open spec fn stage_view(s: PlannedStage) -> (Option<u32>, Seq<char>, PlanDecision, Option<ExecutionMode>, Seq<char>) {
    (s.page_index, s.stage@, s.decision, s.execution, s.explanation@)
}

/// The views of stages.
pub open spec fn stages_view(v: Seq<PlannedStage>) -> Seq<(Option<u32>, Seq<char>, PlanDecision, Option<ExecutionMode>, Seq<char>)> {
    Seq::new(v.len(), |i: int| stage_view(v[i]))
}

/// The three stages of one page: native extraction, rule-based layout when there is
/// native text, and OCR when the native text is below the threshold (unavailable when
/// no OCR model is ready).
pub open spec fn page_stages(p: PageText, threshold: u32, ocr_ready: bool) -> Seq<
    (Option<u32>, Seq<char>, PlanDecision, Option<ExecutionMode>, Seq<char>),
> {
    let n = native_count(p.spans@, p.spans@.len() as int);
    let needs_ocr = n < threshold;
    seq![
        (
            Some(p.index),
            "native.extract"@,
            PlanDecision::Selected,
            None,
            "recovered "@ + decimal(n) + " non-whitespace characters"@,
        ),
        (
            Some(p.index),
            "layout.rulebased"@,
            if n == 0 {
                PlanDecision::Rejected
            } else {
                PlanDecision::Selected
            },
            Some(ExecutionMode::Embedded),
            if n == 0 {
                "no native text is available for rule-based segmentation"@
            } else {
                "native text will be segmented deterministically"@
            },
        ),
        (
            Some(p.index),
            "ocr.ocrs"@,
            if needs_ocr {
                if ocr_ready {
                    PlanDecision::Selected
                } else {
                    PlanDecision::Unavailable
                }
            } else {
                PlanDecision::Rejected
            },
            Some(ExecutionMode::Embedded),
            if needs_ocr {
                "native evidence is below the "@ + decimal(threshold as nat) + " character threshold"@ + (
                if ocr_ready {
                    Seq::empty()
                } else {
                    "; OCRS models are not loaded"@
                })
            } else {
                "native evidence meets the configured threshold"@
            },
        ),
    ]
}

/// The stages of the first `k` pages, after the inspection stage.
pub open spec fn plan_stages(pages: Seq<PageText>, k: int, threshold: u32, ocr_ready: bool) -> Seq<
    (Option<u32>, Seq<char>, PlanDecision, Option<ExecutionMode>, Seq<char>),
>
    decreases k,
{
    if k <= 0 {
        seq![
            (
                None,
                "pdf.inspect"@,
                PlanDecision::Selected,
                None,
                "bounded parsing is required for this PDF"@,
            ),
        ]
    } else {
        plan_stages(pages, k - 1, threshold, ocr_ready) + page_stages(pages[k - 1], threshold, ocr_ready)
    }
}

/// Non-whitespace native characters of a page.
fn page_native_characters(page: &PageText) -> (n: u128)
    ensures
        n == native_count(page.spans@, page.spans@.len() as int),
{
    let mut n: u128 = 0;
    let mut i: usize = 0;
    while i < page.spans.len()
        invariant
            i <= page.spans@.len(),
            n == native_count(page.spans@, i as int),
            n <= i * 0xFFFF_FFFF_FFFF_FFFFu128,
        decreases page.spans@.len() - i,
    {
        let c = quality_characters(page.spans[i].as_str());
        assert(n + c <= (i + 1) * 0xFFFF_FFFF_FFFF_FFFFu128) by (nonlinear_arith)
            requires
                n <= i * 0xFFFF_FFFF_FFFF_FFFFu128,
                c <= 0xFFFF_FFFF_FFFF_FFFFu128,
        ;
        assert(i * 0xFFFF_FFFF_FFFF_FFFFu128 < 0xFFFF_FFFF_FFFF_FFFF_0000_0000_0000_0000u128) by (nonlinear_arith)
            requires
                i <= 0xFFFF_FFFF_FFFF_FFFFu128 - 1,
        ;
        n = n + c as u128;
        i = i + 1;
    }
    n
}

/// A stage record.
fn stage(page_index: Option<u32>, name: &str, decision: PlanDecision, execution: Option<ExecutionMode>, explanation: String) -> (s:
    PlannedStage)
    ensures
        stage_view(s) == (page_index, name@, decision, execution, explanation@),
{
    PlannedStage { page_index, stage: owned(name), decision, execution, explanation }
}

/// Produces the input-specific plan: inspection, then per page native extraction,
/// rule-based layout when native text exists, and OCR below the native threshold.
pub fn plan_for(input_digest: Sha256Digest, pages: &Vec<PageText>, options: &ConversionOptions, ocr_ready: bool) -> (p:
    ConversionPlan)
    requires
        pages@.len() <= u32::MAX,
    ensures
        p.input_digest == input_digest,
        p.page_count == pages@.len(),
        stages_view(p.stages@) == plan_stages(
            pages@,
            pages@.len() as int,
            options.native_character_threshold,
            ocr_ready,
        ),
{
    let threshold = options.native_character_threshold;
    let mut stages: Vec<PlannedStage> = Vec::new();
    stages.push(
        stage(
            None,
            "pdf.inspect",
            PlanDecision::Selected,
            None,
            owned("bounded parsing is required for this PDF"),
        ),
    );
    assert(stages_view(stages@) =~= plan_stages(pages@, 0, threshold, ocr_ready));
    let mut i: usize = 0;
    while i < pages.len()
        invariant
            i <= pages@.len(),
            threshold == options.native_character_threshold,
            stages_view(stages@) == plan_stages(pages@, i as int, threshold, ocr_ready),
        decreases pages@.len() - i,
    {
        let page = &pages[i];
        let n = page_native_characters(page);
        let ghost before = stages_view(stages@);
        let mut text = owned("recovered ");
        push_decimal_wide(&mut text, n);
        push_str(&mut text, " non-whitespace characters");
        let s1 = stage(Some(page.index), "native.extract", PlanDecision::Selected, None, text);
        let s2 = if n == 0 {
            stage(
                Some(page.index),
                "layout.rulebased",
                PlanDecision::Rejected,
                Some(ExecutionMode::Embedded),
                owned("no native text is available for rule-based segmentation"),
            )
        } else {
            stage(
                Some(page.index),
                "layout.rulebased",
                PlanDecision::Selected,
                Some(ExecutionMode::Embedded),
                owned("native text will be segmented deterministically"),
            )
        };
        let needs_ocr = n < threshold as u128;
        let s3 = if needs_ocr {
            let mut text = owned("native evidence is below the ");
            push_decimal(&mut text, threshold as u64);
            push_str(&mut text, " character threshold");
            if !ocr_ready {
                push_str(&mut text, "; OCRS models are not loaded");
            }
            let decision = if ocr_ready {
                PlanDecision::Selected
            } else {
                PlanDecision::Unavailable
            };
            proof {
                if ocr_ready {
                    assert(text@ =~= text@ + Seq::<char>::empty());
                }
            }
            stage(Some(page.index), "ocr.ocrs", decision, Some(ExecutionMode::Embedded), text)
        } else {
            stage(
                Some(page.index),
                "ocr.ocrs",
                PlanDecision::Rejected,
                Some(ExecutionMode::Embedded),
                owned("native evidence meets the configured threshold"),
            )
        };
        let ghost v1 = stage_view(s1);
        let ghost v2 = stage_view(s2);
        let ghost v3 = stage_view(s3);
        stages.push(s1);
        stages.push(s2);
        stages.push(s3);
        proof {
            assert(stages_view(stages@) =~= before + seq![v1, v2, v3]);
            assert(page_stages(*page, threshold, ocr_ready) =~= seq![v1, v2, v3]);
        }
        i = i + 1;
    }
    ConversionPlan { input_digest, page_count: pages.len() as u32, stages }
}

} // verus!

verus! {

/// `needle` occurs in `text` at some position.
pub open spec fn occurs_in(text: Seq<char>, needle: Seq<char>) -> bool {
    exists|i: int| 0 <= i && i + needle.len() <= text.len() && #[trigger] text.subrange(
        i,
        i + needle.len(),
    ) == needle
}

/// True when `needle` occurs in `text`.
pub(crate) fn text_contains(text: &str, needle: &str) -> (r: bool)
    ensures
        r == occurs_in(text@, needle@),
{
    let t = chars_of(text);
    let n = chars_of(needle);
    if n.len() > t.len() {
        assert forall|i: int| 0 <= i && i + needle@.len() <= text@.len() implies #[trigger] text@.subrange(
            i,
            i + needle@.len(),
        ) != needle@ by {
        }
        return false;
    }
    let tl = t.len();
    let last = tl - n.len();
    let mut i: usize = 0;
    while i <= last
        invariant
            t@ == text@,
            n@ == needle@,
            tl == t@.len(),
            n@.len() <= t@.len(),
            last == t@.len() - n@.len(),
            i <= last + 1,
            forall|k: int| 0 <= k < i ==> #[trigger] text@.subrange(k, k + needle@.len()) != needle@,
        decreases last + 1 - i,
    {
        let mut same = true;
        let mut j: usize = 0;
        while j < n.len()
            invariant
                t@ == text@,
                n@ == needle@,
                i <= last,
                tl == t@.len(),
                n@.len() <= t@.len(),
                last == t@.len() - n@.len(),
                j <= n@.len(),
                same == forall|q: int| 0 <= q < j ==> t@[i + q] == n@[q],
            decreases n@.len() - j,
        {
            if t[i + j] != n[j] {
                same = false;
            }
            j = j + 1;
        }
        if same {
            assert(text@.subrange(i as int, i + needle@.len()) =~= needle@);
            return true;
        }
        assert(text@.subrange(i as int, i + needle@.len()) != needle@) by {
            let q = choose|q: int| 0 <= q < n@.len() && t@[i + q] != n@[q];
            assert(text@.subrange(i as int, i + needle@.len())[q] == t@[i + q]);
        }
        i = i + 1;
    }
    assert forall|k: int| 0 <= k && k + needle@.len() <= text@.len() implies #[trigger] text@.subrange(
        k,
        k + needle@.len(),
    ) != needle@ by {
        assert(k < i);
    }
    false
}

/// OCR covers the native text when the native text is nonempty and occurs in some OCR
/// text record.
pub open spec fn ocr_covers(native_text: Seq<char>, ocr_texts: Seq<String>) -> bool {
    native_text.len() > 0 && exists|k: int|
        0 <= k < ocr_texts.len() && occurs_in((#[trigger] ocr_texts[k])@, native_text)
}

/// True when OCR covered the native text of a page.
pub fn ocr_covers_native(native_text: &str, ocr_texts: &[String]) -> (r: bool)
    ensures
        r == ocr_covers(native_text@, ocr_texts@),
{
    if native_text.is_empty() {
        return false;
    }
    let mut k: usize = 0;
    while k < ocr_texts.len()
        invariant
            native_text@.len() > 0,
            k <= ocr_texts@.len(),
            forall|q: int| 0 <= q < k ==> !occurs_in((#[trigger] ocr_texts@[q])@, native_text@),
        decreases ocr_texts@.len() - k,
    {
        if text_contains(ocr_texts[k].as_str(), native_text) {
            return true;
        }
        k = k + 1;
    }
    false
}

/// The evidence a reconciled OCR page selects: the native record unless OCR covered it,
/// then every OCR record in order.
pub open spec fn reconciled_ids(
    native: Option<crate::id::EvidenceId>,
    covered: bool,
    ocr: Seq<crate::id::EvidenceId>,
) -> Seq<crate::id::EvidenceId> {
    match native {
        Some(n) => if covered {
            ocr
        } else {
            seq![n] + ocr
        },
        None => ocr,
    }
}

/// The explanation of a reconciled selection.
pub open spec fn reconciled_explanation(native_present: bool, covered: bool) -> Seq<char> {
    if covered {
        "OCR covered the low-quality native text; native evidence remains available separately"@
    } else if native_present {
        "native and OCR evidence were retained and selected in source order"@
    } else {
        "OCR selected because native evidence was absent"@
    }
}

/// Selects the evidence of a page that needed OCR: none when nothing was selected,
/// else the reconciled records with the reason native evidence left.
pub fn reconciled_selection(
    native: Option<crate::id::EvidenceId>,
    covered: bool,
    ocr_ids: Vec<crate::id::EvidenceId>,
) -> (r: Option<crate::ir::SelectedView>)
    ensures
        reconciled_ids(native, covered, ocr_ids@).len() == 0 ==> r is None,
        reconciled_ids(native, covered, ocr_ids@).len() > 0 ==> (r matches Some(v)
            && v.evidence_ids@ == reconciled_ids(native, covered, ocr_ids@) && v.reason == (
        if native is Some {
            crate::ir::SelectionReason::Reconciled
        } else {
            crate::ir::SelectionReason::NativeAbsent
        }) && v.explanation@ == reconciled_explanation(native is Some, covered)),
{
    let native_present = native.is_some();
    let mut ids: Vec<crate::id::EvidenceId> = Vec::new();
    match native {
        Some(n) => {
            if !covered {
                ids.push(n);
            }
        },
        None => {},
    }
    let ghost head = ids@;
    let mut ocr = ocr_ids;
    let ghost tail = ocr@;
    ids.append(&mut ocr);
    assert(ids@ =~= head + tail);
    if ids.len() == 0 {
        return None;
    }
    let explanation = if covered {
        owned("OCR covered the low-quality native text; native evidence remains available separately")
    } else if native_present {
        owned("native and OCR evidence were retained and selected in source order")
    } else {
        owned("OCR selected because native evidence was absent")
    };
    let reason = if native_present {
        crate::ir::SelectionReason::Reconciled
    } else {
        crate::ir::SelectionReason::NativeAbsent
    };
    Some(crate::ir::SelectedView { evidence_ids: ids, reason, explanation })
}

/// Reading order through regions in sequence: one edge per consecutive pair.
pub fn sequential_reading_order(ids: &[crate::id::RegionId]) -> (r: Vec<crate::ir::ReadingOrderEdge>)
    ensures
        r@.len() == if ids@.len() == 0 {
            0
        } else {
            ids@.len() - 1
        },
        forall|k: int|
            0 <= k < r@.len() ==> (#[trigger] r@[k]).before == ids@[k] && r@[k].after == ids@[k + 1],
{
    let mut r: Vec<crate::ir::ReadingOrderEdge> = Vec::new();
    let mut k: usize = 1;
    while k < ids.len()
        invariant
            1 <= k,
            ids@.len() == 0 ==> k == 1,
            ids@.len() > 0 ==> k <= ids@.len(),
            r@.len() == k - 1,
            forall|q: int|
                0 <= q < r@.len() ==> (#[trigger] r@[q]).before == ids@[q] && r@[q].after == ids@[q
                    + 1],
        decreases ids@.len() - k,
    {
        r.push(
            crate::ir::ReadingOrderEdge { before: ids[k - 1].clone(), after: ids[k].clone() },
        );
        k = k + 1;
    }
    r
}

} // verus!
