//! The visual rules of a styled node and the box geometry they imply.
//! Lengths are in thousandths of a pixel.

use vstd::prelude::*;
use vstd::string::*;

use crate::boxes::{InnerBox, OuterBox};
use crate::cssom::{Color, Value};
use crate::dom::NodeType;
use crate::style::{PropertyMap, StyledNode};

verus! {

/// Exactly one of the two boxes moves the cursor: the inner one for text,
/// the outer one for elements.
#[derive(Clone, Copy, Debug, PartialEq, Eq, Structural)]
pub struct Dimensions {
    pub inner_box: InnerBox,
    pub outer_box: OuterBox,
}

#[derive(Clone, Copy, Debug, PartialEq, Eq, Structural)]
pub struct Padding {
    pub top: u64,
    pub bottom: u64,
    pub left: u64,
    pub right: u64,
}

#[derive(Clone, Copy, Debug, PartialEq, Eq, Structural)]
pub struct VisualRules {
    pub font_size: u64,
    pub color: Color,
    pub padding: Padding,
}

/// A styled node with its visual rules.
pub struct Block<'a> {
    pub node: &'a StyledNode<'a>,
    pub visuals: VisualRules,
}

/// The length held under `key`, or zero when there is none or it is no length.
pub open spec fn length_or_zero(m: Map<Seq<char>, Value>, key: Seq<char>) -> u64 {
    if m.contains_key(key) {
        match m[key] {
            Value::Length(n, _) => n,
            _ => 0,
        }
    } else {
        0
    }
}

/// The colour held under `color`, or black when there is none or it is no colour.
pub open spec fn color_or_black(m: Map<Seq<char>, Value>) -> Color {
    if m.contains_key("color"@) {
        match m["color"@] {
            Value::ColorValue(c) => c,
            _ => Color { r: 0, g: 0, b: 0, a: 0 },
        }
    } else {
        Color { r: 0, g: 0, b: 0, a: 0 }
    }
}

pub open spec fn padding_of(m: Map<Seq<char>, Value>) -> Padding {
    Padding {
        top: length_or_zero(m, "padding-top"@),
        bottom: length_or_zero(m, "padding-bottom"@),
        left: length_or_zero(m, "padding-left"@),
        right: length_or_zero(m, "padding-right"@),
    }
}

/// The visual rules read from a node's own property map.
pub open spec fn visual_rules_of(m: Map<Seq<char>, Value>) -> VisualRules {
    VisualRules {
        font_size: length_or_zero(m, "font-size"@),
        color: color_or_black(m),
        padding: padding_of(m),
    }
}

pub open spec fn zero_inner() -> InnerBox {
    InnerBox { x: 0, y: 0 }
}

pub open spec fn zero_outer() -> OuterBox {
    OuterBox { top_y: 0, bottom_y: 0, left_x: 0, right_x: 0 }
}

/// The geometry of a node of the given kind with the given visual rules.
pub open spec fn dimensions_of(t: NodeType, v: VisualRules) -> Dimensions {
    match t {
        NodeType::Text(_) => Dimensions {
            inner_box: InnerBox { x: 0, y: v.font_size },
            outer_box: zero_outer(),
        },
        NodeType::Element(_) => Dimensions {
            inner_box: zero_inner(),
            outer_box: OuterBox {
                top_y: v.padding.top,
                bottom_y: v.padding.bottom,
                left_x: v.padding.left,
                right_x: v.padding.right,
            },
        },
        NodeType::Comment(_) => Dimensions { inner_box: zero_inner(), outer_box: zero_outer() },
    }
}

/// The length under `key`, or zero.
fn length_at(values: &PropertyMap, key: &str) -> (r: u64)
    ensures
        r == length_or_zero(values@, key@),
{
    let k = String::from_str(key);
    get_length_or_default(values.get(&k))
}

/// The amount of a length, or zero for anything else.
pub fn get_length_or_default(maybe_length: Option<&Value>) -> (r: u64)
    ensures
        r == match maybe_length {
            Some(Value::Length(n, _)) => *n,
            _ => 0,
        },
{
    match maybe_length {
        Some(Value::Length(size, _)) => *size,
        _ => 0,
    }
}

impl Padding {
    /// The padding on each side, zero where unset.
    pub fn new(node: &StyledNode) -> (r: Padding)
        ensures
            r == padding_of(node.specified_values@),
    {
        let values = &node.specified_values;
        Padding {
            top: length_at(values, "padding-top"),
            bottom: length_at(values, "padding-bottom"),
            left: length_at(values, "padding-left"),
            right: length_at(values, "padding-right"),
        }
    }
}

impl VisualRules {
    /// The font size, colour and padding of a node, from its own property map.
    pub fn new(node: &StyledNode) -> (r: VisualRules)
        ensures
            r == visual_rules_of(node.specified_values@),
    {
        let values = &node.specified_values;
        let font_size = length_at(values, "font-size");
        let key = String::from_str("color");
        let color = match values.get(&key) {
            Some(Value::ColorValue(c)) => *c,
            _ => Color::default(),
        };
        VisualRules { font_size, color, padding: Padding::new(node) }
    }

    /// The red, green and blue channels, out of 255.
    pub fn color_to_rgb(&self) -> (r: (u8, u8, u8))
        ensures
            r == (self.color.r, self.color.g, self.color.b),
    {
        (self.color.r, self.color.g, self.color.b)
    }
}

impl<'a> Block<'a> {
    pub fn new(node: &'a StyledNode<'a>) -> (r: Block<'a>)
        ensures
            r.node == node,
            r.visuals == visual_rules_of(node.specified_values@),
    {
        Block { node, visuals: VisualRules::new(node) }
    }

    /// The box geometry of the node.
    pub fn dimensions(&self) -> (r: Dimensions)
        ensures
            r == dimensions_of(self.node.node.node_type, self.visuals),
    {
        match &self.node.node.node_type {
            NodeType::Text(_) => Dimensions {
                outer_box: OuterBox::zero(),
                inner_box: InnerBox::new(&self.visuals),
            },
            NodeType::Element(_) => Dimensions {
                outer_box: OuterBox::new(&self.visuals),
                inner_box: InnerBox::zero(),
            },
            NodeType::Comment(_) => Dimensions {
                outer_box: OuterBox::zero(),
                inner_box: InnerBox::zero(),
            },
        }
    }
}

} // verus!
