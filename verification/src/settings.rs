use vstd::prelude::*;

verus! {

/// The overlay grid drawn on top of the picture.
#[derive(Clone, Copy, Debug, PartialEq, Eq, Structural)]
pub enum GridPattern {
    Off,
    RuleOfThirds,
    GoldenRatio,
    Grid4x4,
    Grid8x8,
}

/// The corner of the viewport that the histogram panel sits in.
#[derive(Clone, Copy, Debug, PartialEq, Eq, Structural)]
pub enum HistogramPosition {
    TopLeft,
    TopRight,
    BottomLeft,
    BottomRight,
}

} // verus!
