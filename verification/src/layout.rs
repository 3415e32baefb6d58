//! Geometry types shared between the document model and its consumers: pixel
//! rectangles, optional size requests, and the pairing of an element with the
//! rectangle it was assigned.

use vstd::prelude::*;

use crate::ast::AbstractElementID;

verus! {

/// An axis-aligned pixel rectangle: position of the top-left corner plus size.
#[derive(Clone, Copy, Hash, PartialEq, Eq, Structural, Debug, Default)]
pub struct Rect {
    pub x: u32,
    pub y: u32,
    pub w: u32,
    pub h: u32,
}

impl Rect {
    /// Shrinks the rectangle by `margin` pixels on every side.
    pub fn with_margin(&self, margin: u32) -> (r: Rect)
        requires
            self.x + margin <= u32::MAX,
            self.y + margin <= u32::MAX,
            2 * margin <= self.w,
            2 * margin <= self.h,
        ensures
            r == (Rect {
                x: (self.x + margin) as u32,
                y: (self.y + margin) as u32,
                w: (self.w - 2 * margin) as u32,
                h: (self.h - 2 * margin) as u32,
            }),
    {
        Rect { x: self.x + margin, y: self.y + margin, w: self.w - 2 * margin, h: self.h - 2 * margin }
    }
}

/// An optional width and height request for one element, in pixels.
#[derive(Clone, Copy, Debug, PartialEq, Eq, Structural)]
pub struct SizeSpec {
    pub width: Option<u32>,
    pub height: Option<u32>,
}

/// One element together with the rectangle the layout pass assigned to it.
#[derive(Clone, Copy, Debug, PartialEq, Eq, Structural)]
pub struct LayoutElement {
    pub element: AbstractElementID,
    pub max_bounds: Rect,
}

} // verus!
