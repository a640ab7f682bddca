//! Deterministic pipeline stages recorded in provenance.

use vstd::prelude::*;

verus! {

/// A deterministic pipeline stage.
#[derive(Debug, Clone, Copy, PartialEq, Eq, PartialOrd, Ord, Hash)]
pub enum Stage {
    /// Input acquisition and hashing.
    Acquire,
    /// Document inspection.
    Inspect,
    /// Native content extraction.
    NativeExtract,
    /// Page rasterization.
    Rasterize,
    /// Layout analysis.
    Layout,
    /// Optical character recognition.
    Ocr,
    /// Evidence reconciliation.
    Reconcile,
    /// Output rendering.
    Render,
}

} // verus!
