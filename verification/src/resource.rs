//! Explicit resource estimates.

use vstd::prelude::*;

use crate::quantity::{Bytes, MicroUsd, Millis};

verus! {

/// A value that is either known or explicitly unknown.
#[derive(Debug, Clone, Copy, PartialEq, Eq)]
pub enum Estimate<T> {
    /// A measured or estimated value is available.
    Known(T),
    /// No defensible value is available.
    Unknown,
}

impl<T> Default for Estimate<T> {
    /// An estimate defaults to unknown, never to a zero value.
    fn default() -> (e: Self)
        ensures
            e is Unknown,
    {
        Estimate::Unknown
    }
}

impl<T> Estimate<T> {
    /// Returns a reference to a known value.
    pub fn known(&self) -> (r: Option<&T>)
        ensures
            match self {
                Estimate::Known(v) => r == Some(v),
                Estimate::Unknown => r is None,
            },
    {
        match self {
            Estimate::Known(value) => Some(value),
            Estimate::Unknown => None,
        }
    }

    /// Returns true when no value is known.
    pub fn is_unknown(&self) -> (r: bool)
        ensures
            r == (self is Unknown),
    {
        match self {
            Estimate::Known(_) => false,
            Estimate::Unknown => true,
        }
    }
}

/// Confidence class for an estimate.
#[derive(Debug, Clone, Copy, PartialEq, Eq)]
pub enum EstimateConfidence {
    /// Directly measured for the same artifact and configuration.
    Measured,
    /// Derived from a calibrated model or close observation.
    Calibrated,
    /// Conservative static upper bound supplied by an engine.
    Conservative,
    /// Weak heuristic unsuitable for strict admission by default.
    Heuristic,
}

/// Provenance for a group of resource estimates.
#[derive(Debug, Clone, PartialEq, Eq)]
pub struct EstimateSource {
    /// Confidence class.
    pub confidence: EstimateConfidence,
    /// Stable method identifier or short description.
    pub method: String,
}

/// Resource and quality estimate for one placement. Unknown is not zero.
#[derive(Debug, Clone, PartialEq, Eq)]
pub struct ResourceEstimate {
    /// Maximum host RAM expected while executing.
    pub peak_ram: Estimate<Bytes>,
    /// Host RAM retained while the engine remains warm.
    pub warm_ram: Estimate<Bytes>,
    /// Maximum device VRAM expected while executing.
    pub peak_vram: Estimate<Bytes>,
    /// Device VRAM retained while the engine remains warm.
    pub warm_vram: Estimate<Bytes>,
    /// Expected execution duration.
    pub latency: Estimate<Millis>,
    /// Expected remote monetary cost.
    pub remote_cost: Estimate<MicroUsd>,
    /// Expected output quality when calibrated. The calibrated probability is real-valued;
    /// it is held as its order key, which orders keys as the probabilities are ordered.
    pub quality: Estimate<u64>,
    /// Source and confidence for these values.
    pub source: Estimate<EstimateSource>,
}

impl Default for ResourceEstimate {
    fn default() -> (r: Self)
        ensures
            r.peak_ram is Unknown,
            r.warm_ram is Unknown,
            r.peak_vram is Unknown,
            r.warm_vram is Unknown,
            r.latency is Unknown,
            r.remote_cost is Unknown,
            r.quality is Unknown,
            r.source is Unknown,
    {
        ResourceEstimate {
            peak_ram: Estimate::Unknown,
            warm_ram: Estimate::Unknown,
            peak_vram: Estimate::Unknown,
            warm_vram: Estimate::Unknown,
            latency: Estimate::Unknown,
            remote_cost: Estimate::Unknown,
            quality: Estimate::Unknown,
            source: Estimate::Unknown,
        }
    }
}

} // verus!
