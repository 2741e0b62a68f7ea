//! Fill and stroke style kinds.

use vstd::prelude::*;

verus! {

/// Which kind of paint a fill uses.
#[derive(Debug, Clone, Copy, PartialEq, Eq, Structural)]
pub enum FillKind {
    Solid,
    LinearGradient,
    RadialGradient,
}

impl Default for FillKind {
    fn default() -> (k: Self)
        ensures
            k == FillKind::Solid,
    {
        FillKind::Solid
    }
}

/// Shape of stroke corners.
#[derive(Debug, Clone, Copy, PartialEq, Eq, Structural)]
pub enum LineJoin {
    Miter,
    Round,
    Bevel,
}

impl Default for LineJoin {
    fn default() -> (j: Self)
        ensures
            j == LineJoin::Miter,
    {
        LineJoin::Miter
    }
}

/// Shape of stroke ends.
#[derive(Debug, Clone, Copy, PartialEq, Eq, Structural)]
pub enum LineCap {
    Butt,
    Round,
    Square,
}

impl Default for LineCap {
    fn default() -> (c: Self)
        ensures
            c == LineCap::Butt,
    {
        LineCap::Butt
    }
}

} // verus!
