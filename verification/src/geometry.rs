//! Coordinate spaces and units carried by page geometry.
//!
//! Rectangles themselves are real-valued and stay with the host; their space and
//! unit are plain values.

use vstd::prelude::*;

verus! {

/// Coordinate-space identity carried by every rectangle.
#[derive(Debug, Clone, Copy, PartialEq, Eq, Hash, Structural)]
pub enum CoordinateSpace {
    /// PDF user space.
    Pdf,
    /// A raster image.
    Image,
    /// Page-normalized coordinates in the inclusive range zero through one.
    Normalized,
}

/// Unit associated with a coordinate space.
#[derive(Debug, Clone, Copy, PartialEq, Eq, Hash, Structural)]
pub enum Unit {
    /// One PDF point, equal to 1/72 inch.
    Point,
    /// One raster pixel.
    Pixel,
    /// Unitless normalized ratio.
    Ratio,
}

} // verus!
