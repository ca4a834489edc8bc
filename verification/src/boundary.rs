//! Shape-general boundary vocabulary.
//!
//! A boundary is evidence, not a promise that hidden visual information has been
//! recovered. Consumers must inspect confidence, uncertainty and diagnostics before
//! automation.

use vstd::prelude::*;

verus! {

/// The representational family returned by a boundary detector.
#[derive(Clone, Copy, Debug, PartialEq, Eq, Structural)]
pub enum BoundaryKind {
    /// A single point.
    Point,
    /// An infinite straight line.
    Line,
    /// A finite line segment.
    Segment,
    /// A four-corner polygon, conventionally TL, TR, BR, BL when page-like.
    Quad,
    /// An ordered polygonal outline.
    Polygon,
    /// A circle defined by centre and radius.
    Circle,
    /// An ellipse defined by centre, axes, and rotation.
    Ellipse,
    /// A freeform visible contour. It must not imply occluded parts are known.
    FreeformContour,
    /// A raster boundary or foreground mask.
    Mask,
    /// A projected outline of a surface.
    SurfaceOutline,
    /// The requested boundary cannot yet be classified.
    Unknown,
}

/// Intent used to select a boundary algorithm without embedding a document-only assumption.
#[derive(Clone, Copy, Debug, PartialEq, Eq, Structural)]
pub enum BoundaryDetectionMode {
    /// Page-like quadrilateral detection.
    DocumentPage,
    /// General object outline.
    ObjectOutline,
    /// Parametric geometric shape detection.
    GeometricShape,
    /// Lines, diagrams, or line art.
    LineArt,
    /// General image edges with no domain promise.
    ArbitraryEdge,
    /// Runtime selects a supported mode conservatively.
    Auto,
}

/// Evidence state that must remain visible to products and users.
#[derive(Clone, Copy, Debug, PartialEq, Eq, Structural)]
pub enum BoundaryDiagnosticStatus {
    /// Strong visible edge evidence supported the result.
    VisibleEdgeFound,
    /// Edge evidence exists but is weak.
    WeakEdge,
    /// Several boundaries are plausible from the observed pixels.
    AmbiguousBoundary,
    /// The desired boundary is covered by another object.
    OccludedBoundary,
    /// Saturation prevented a reliable edge measurement.
    SaturatedBoundary,
    /// The edge has insufficient local contrast.
    LowContrastBoundary,
    /// Part of the needed boundary lies outside the frame.
    OutOfFrame,
    /// Pixels do not support a reliable estimate.
    InsufficientEvidence,
    /// Validated manual geometry is required before reconstructing automatically.
    ManualRequired,
}

} // verus!
