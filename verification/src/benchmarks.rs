//! Named synthetic document fixtures that keep benchmarks free of binary assets.

use vstd::prelude::*;

verus! {

/// Named synthetic image classes used by correctness tests and scalar benchmarks.
#[derive(Clone, Copy, Debug, PartialEq, Eq, Structural)]
pub enum SyntheticDocumentFixtureKind {
    /// Centered axis-aligned bright quadrilateral.
    PlainCentered,
    /// Rotated bright quadrilateral.
    Rotated,
    /// Convex perspective quadrilateral.
    Perspective,
    /// Page/background separation with low contrast.
    LowContrast,
    /// Page intentionally extending outside the visible frame.
    PartialCutOff,
    /// One page plus a separate rectangular distractor.
    MultipleDistractors,
    /// Uniform frame without a document candidate.
    NoDocument,
}

/// Gray levels a fixture is painted with.
#[derive(Clone, Copy, Debug, PartialEq, Eq, Structural)]
pub struct FixtureLevels {
    /// Level of every pixel outside the shapes.
    pub background: u8,
    /// Level of the page, when the fixture has one.
    pub page: Option<u8>,
    /// Level of the rectangular distractor, when the fixture has one.
    pub distractor: Option<u8>,
}

/// The gray levels of a fixture kind: a dim background (brighter for low contrast), a
/// bright page (dimmer for low contrast) unless there is no document, and a distractor
/// only for the multiple-distractor fixture.
pub open spec fn spec_fixture_levels(kind: SyntheticDocumentFixtureKind) -> FixtureLevels {
    FixtureLevels {
        background: if kind is LowContrast {
            90
        } else {
            12
        },
        page: if kind is NoDocument {
            None
        } else if kind is LowContrast {
            Some(150u8)
        } else {
            Some(245u8)
        },
        distractor: if kind is MultipleDistractors {
            Some(190u8)
        } else {
            None
        },
    }
}

/// Gray levels the fixture of `kind` is painted with.
pub fn fixture_levels(kind: SyntheticDocumentFixtureKind) -> (levels: FixtureLevels)
    ensures
        levels == spec_fixture_levels(kind),
{
    let low_contrast = kind == SyntheticDocumentFixtureKind::LowContrast;
    let background = if low_contrast {
        90
    } else {
        12
    };
    let page = if kind == SyntheticDocumentFixtureKind::NoDocument {
        None
    } else if low_contrast {
        Some(150)
    } else {
        Some(245)
    };
    let distractor = if kind == SyntheticDocumentFixtureKind::MultipleDistractors {
        Some(190)
    } else {
        None
    };
    FixtureLevels { background, page, distractor }
}

} // verus!
