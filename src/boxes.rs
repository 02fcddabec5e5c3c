//! Box geometry: how far a node moves the layout cursor. Lengths are in
//! thousandths of a pixel.

use vstd::prelude::*;

use crate::visuals::VisualRules;

verus! {

/// Offsets around an element's children, taken from its padding.
#[derive(Clone, Copy, Debug, PartialEq, Eq, Structural)]
pub struct OuterBox {
    pub top_y: u64,
    pub bottom_y: u64,
    pub left_x: u64,
    pub right_x: u64,
}

/// The advance of a line of text.
#[derive(Clone, Copy, Debug, PartialEq, Eq, Structural)]
pub struct InnerBox {
    pub x: u64,
    pub y: u64,
}

impl InnerBox {
    /// A line as tall as the font size.
    pub fn new(visual_rules: &VisualRules) -> (r: InnerBox)
        ensures
            r == (InnerBox { x: 0, y: visual_rules.font_size }),
    {
        InnerBox { x: 0, y: visual_rules.font_size }
    }

    /// No advance.
    pub fn zero() -> (r: InnerBox)
        ensures
            r == (InnerBox { x: 0, y: 0 }),
    {
        InnerBox { x: 0, y: 0 }
    }
}

impl OuterBox {
    /// Offsets equal to the padding on each side.
    pub fn new(visual_rules: &VisualRules) -> (r: OuterBox)
        ensures
            r == (OuterBox {
                top_y: visual_rules.padding.top,
                bottom_y: visual_rules.padding.bottom,
                left_x: visual_rules.padding.left,
                right_x: visual_rules.padding.right,
            }),
    {
        OuterBox {
            top_y: visual_rules.padding.top,
            bottom_y: visual_rules.padding.bottom,
            left_x: visual_rules.padding.left,
            right_x: visual_rules.padding.right,
        }
    }

    /// No offsets.
    pub fn zero() -> (r: OuterBox)
        ensures
            r == (OuterBox { top_y: 0, bottom_y: 0, left_x: 0, right_x: 0 }),
    {
        OuterBox { top_y: 0, bottom_y: 0, left_x: 0, right_x: 0 }
    }
}

} // verus!
