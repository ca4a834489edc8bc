//! Integer-level vocabulary of the geometry layer: sampling layouts, sampling
//! modes, warp borders, winding and projection classes.

use vstd::prelude::*;

verus! {

/// Checked storage layout required for interleaved scalar sampling.
#[derive(Clone, Copy, Debug, PartialEq, Eq, Structural)]
pub struct SamplingLayout {
    /// Logical image width in pixels.
    pub width: u32,
    /// Logical image height in pixels.
    pub height: u32,
    /// Bytes between starts of adjacent rows.
    pub stride: usize,
    /// Interleaved components per pixel.
    pub channels: usize,
}

/// Winding direction for a non-degenerate polygon.
#[derive(Clone, Copy, Debug, PartialEq, Eq, Structural)]
pub enum Winding {
    /// Counter-clockwise vertex order.
    CounterClockwise,
    /// Clockwise vertex order.
    Clockwise,
    /// Area too small to determine a direction.
    Degenerate,
}

/// Sampling method for image warps.
#[derive(Clone, Copy, Debug, PartialEq, Eq, Structural)]
pub enum SamplingMode {
    /// Select the closest source sample.
    Nearest,
    /// Blend four neighboring source samples.
    Bilinear,
}

/// Out-of-bounds behavior for baseline generic warps.
#[derive(Clone, Copy, Debug, PartialEq, Eq, Structural)]
pub enum WarpBorder {
    /// Fill outside samples with this component value.
    Constant(u8),
    /// Clamp coordinates to the nearest source edge.
    Replicate,
}

/// Projection model selection for future calibration and reconstruction.
#[derive(Clone, Copy, Debug, PartialEq, Eq, Structural)]
pub enum ProjectionModel {
    /// Perspective pinhole projection.
    Pinhole,
    /// Orthographic projection.
    Orthographic,
    /// Domain-defined projection.
    Custom,
}

} // verus!
