use vstd::prelude::*;

verus! {

/// One of the eight handles by which a window can be resized.
#[derive(Clone, Copy, PartialEq, Eq, Debug, Structural)]
pub enum Corner {
    TopLeft,
    TopCenter,
    TopRight,
    CenterRight,
    BottomRight,
    BottomCenter,
    BottomLeft,
    CenterLeft,
}

/// The resize handles in clockwise order, starting at the top-left corner.
pub open spec fn corners_clockwise() -> Seq<Corner> {
    seq![
        Corner::TopLeft,
        Corner::TopCenter,
        Corner::TopRight,
        Corner::CenterRight,
        Corner::BottomRight,
        Corner::BottomCenter,
        Corner::BottomLeft,
        Corner::CenterLeft,
    ]
}

impl Corner {
    /// Every resize handle, once each, in clockwise order from the top-left.
    pub fn all() -> (res: Vec<Corner>)
        ensures
            res@ == corners_clockwise(),
    {
        vec![
            Corner::TopLeft,
            Corner::TopCenter,
            Corner::TopRight,
            Corner::CenterRight,
            Corner::BottomRight,
            Corner::BottomCenter,
            Corner::BottomLeft,
            Corner::CenterLeft,
        ]
    }
}

} // verus!
