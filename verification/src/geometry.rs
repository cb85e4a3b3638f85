//! Plain geometric value types: rectangles, padding insets, and the layout
//! configuration enums. Coordinates are signed 64-bit logical units; a widget
//! may be laid out to zero or even negative size in degenerate layouts, so no
//! sign restriction is placed on the stored fields.

use vstd::prelude::*;

verus! {

/// Axis-aligned box given by its top-left corner and its extent.
#[derive(Clone, Copy, Debug, PartialEq, Eq, Structural)]
pub struct Rect {
    pub x: i64,
    pub y: i64,
    pub width: i64,
    pub height: i64,
}

/// Mathematical model of a `Rect`: the same four fields over `int`.
pub struct RectModel {
    pub x: int,
    pub y: int,
    pub width: int,
    pub height: int,
}

impl View for Rect {
    type V = RectModel;

    open spec fn view(&self) -> RectModel {
        RectModel { x: self.x as int, y: self.y as int, width: self.width as int, height: self.height as int }
    }
}

/// A point lies in a rectangle when it is between the edges, both edges
/// included; pointer hit-testing uses this closed-interval test.
pub open spec fn rect_contains(r: RectModel, px: int, py: int) -> bool {
    &&& r.x <= px <= r.x + r.width
    &&& r.y <= py <= r.y + r.height
}

impl Rect {
    /// Closed-interval containment test; total over all coordinates.
    pub fn contains(&self, px: i64, py: i64) -> (b: bool)
        ensures
            b == rect_contains(self@, px as int, py as int),
    {
        let x = self.x as i128;
        let y = self.y as i128;
        let w = self.width as i128;
        let h = self.height as i128;
        let px = px as i128;
        let py = py as i128;
        x <= px && px <= x + w && y <= py && py <= y + h
    }
}

/// Insets applied to a container's rectangle before its children are placed.
#[derive(Clone, Copy, Debug, PartialEq, Eq, Structural)]
pub struct Padding {
    pub left: i64,
    pub right: i64,
    pub top: i64,
    pub bottom: i64,
}

/// Mathematical model of a `Padding`.
pub struct PaddingModel {
    pub left: int,
    pub right: int,
    pub top: int,
    pub bottom: int,
}

impl View for Padding {
    type V = PaddingModel;

    open spec fn view(&self) -> PaddingModel {
        PaddingModel {
            left: self.left as int,
            right: self.right as int,
            top: self.top as int,
            bottom: self.bottom as int,
        }
    }
}

impl Padding {
    /// Uniform insets on all four sides.
    pub fn all(value: i64) -> (p: Padding)
        ensures
            p@ == (PaddingModel { left: value as int, right: value as int, top: value as int, bottom: value as int }),
    {
        Padding { left: value, right: value, top: value, bottom: value }
    }
}

/// Cross-axis placement of children inside a container's content box.
#[derive(Clone, Copy, Debug, PartialEq, Eq, Structural)]
pub enum Alignment {
    Start,
    Center,
    End,
}

/// The main axis a container lays its children along.
#[derive(Clone, Copy, Debug, PartialEq, Eq, Structural)]
pub enum Direction {
    Horizontal,
    Vertical,
}

} // verus!
