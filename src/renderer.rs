//! The layout walker: a depth-first pass over the styled tree that moves a
//! cursor by each node's box geometry and records paint commands for a
//! drawing surface. Positions and lengths are in thousandths of a pixel.

use vstd::prelude::*;

use crate::dom::NodeType;
use crate::style::StyledNode;
use crate::visuals::{dimensions_of, visual_rules_of, Block, VisualRules};

verus! {

/// One command for the drawing surface, issued in order.
#[derive(Clone, Debug, PartialEq)]
pub enum PaintCommand {
    /// Fill the whole canvas with white.
    Clear,
    /// Select the sans-serif face, normal slant and weight, for the whole pass.
    SelectFontFace,
    /// Set the fill colour; channels out of 255.
    SetSourceRgb(u8, u8, u8),
    SetFontSize(u64),
    /// Move the pen to an absolute position.
    MoveTo(u64, u64),
    /// Show text at the pen.
    ShowText(String),
}

/// The canvas size.
#[derive(Clone, Copy, Debug, PartialEq, Eq, Structural)]
pub struct Bounds {
    pub width: u64,
    pub height: u64,
}

/// The layout cursor.
#[derive(Clone, Copy, Debug, PartialEq, Eq, Structural)]
pub struct Coordinates {
    pub x: u64,
    pub y: u64,
}

/// `v` moved forward by `inc`, stopping at `bound`.
pub open spec fn advance(v: u64, inc: u64, bound: u64) -> u64 {
    if v + inc > bound {
        bound
    } else {
        (v + inc) as u64
    }
}

/// `v` moved back by `dec`, stopping at zero.
pub open spec fn retreat(v: u64, dec: u64) -> u64 {
    if dec > v {
        0
    } else {
        (v - dec) as u64
    }
}

impl Coordinates {
    pub fn move_left(&mut self, increment: u64)
        ensures
            *final(self) == (Coordinates { x: retreat(old(self).x, increment), y: old(self).y }),
    {
        if increment > self.x {
            self.x = 0;
        } else {
            self.x = self.x - increment;
        }
    }

    pub fn move_right(&mut self, increment: u64, bounds: &Bounds)
        requires
            old(self).x <= bounds.width,
        ensures
            *final(self) == (Coordinates {
                x: advance(old(self).x, increment, bounds.width),
                y: old(self).y,
            }),
    {
        if increment > bounds.width - self.x {
            self.x = bounds.width;
        } else {
            self.x = self.x + increment;
        }
    }

    pub fn move_up(&mut self, increment: u64)
        ensures
            *final(self) == (Coordinates { x: old(self).x, y: retreat(old(self).y, increment) }),
    {
        if increment > self.y {
            self.y = 0;
        } else {
            self.y = self.y - increment;
        }
    }

    pub fn move_down(&mut self, increment: u64, bounds: &Bounds)
        requires
            old(self).y <= bounds.height,
        ensures
            *final(self) == (Coordinates {
                x: old(self).x,
                y: advance(old(self).y, increment, bounds.height),
            }),
    {
        if increment > bounds.height - self.y {
            self.y = bounds.height;
        } else {
            self.y = self.y + increment;
        }
    }

    /// Puts x back to `reset`, or to zero.
    pub fn reset_x(&mut self, reset: Option<u64>)
        ensures
            *final(self) == (Coordinates {
                x: match reset {
                    Some(v) => v,
                    None => 0,
                },
                y: old(self).y,
            }),
    {
        self.x = match reset {
            Some(v) => v,
            None => 0,
        };
    }
}

/// What a node paints with its pen at (x, y): text is shown in its colour and
/// size; other nodes paint nothing.
pub open spec fn paint_commands(t: NodeType, v: VisualRules, x: u64, y: u64) -> Seq<PaintCommand> {
    match t {
        NodeType::Text(content) => seq![
            PaintCommand::MoveTo(x, y),
            PaintCommand::SetSourceRgb(v.color.r, v.color.g, v.color.b),
            PaintCommand::SetFontSize(v.font_size),
            PaintCommand::ShowText(content),
        ],
        _ => Seq::empty(),
    }
}

/// The commands that the walk over `s` records with the cursor starting at
/// (x, y), and the cursor's y at the end. The walk ends with x where it began.
pub open spec fn walk(s: StyledNode, x: u64, y: u64, b: Bounds) -> (Seq<PaintCommand>, u64)
    decreases s, 1int, 0int,
{
    let v = visual_rules_of(s.specified_values@);
    let d = dimensions_of(s.node.node_type, v);
    let y1 = advance(advance(y, d.inner_box.y, b.height), d.outer_box.top_y, b.height);
    let x1 = advance(x, d.outer_box.left_x, b.width);
    let rest = walk_children(s, 0, x1, y1, b);
    (
        paint_commands(s.node.node_type, v, x1, y1) + rest.0,
        advance(rest.1, d.outer_box.bottom_y, b.height),
    )
}

/// The walk over the children of `s` from the `k`-th on, each starting at x.
pub open spec fn walk_children(s: StyledNode, k: int, x: u64, y: u64, b: Bounds) -> (
    Seq<PaintCommand>,
    u64,
)
    decreases s, 0int, s.children@.len() - k,
{
    if k < 0 || k >= s.children@.len() {
        (Seq::empty(), y)
    } else {
        let first = walk(s.children@[k], x, y, b);
        let rest = walk_children(s, k + 1, x, first.1, b);
        (first.0 + rest.0, rest.1)
    }
}

impl<'a> Block<'a> {
    /// Records what the node paints with the pen at (x, y).
    pub fn paint(&self, x: u64, y: u64, out: &mut Vec<PaintCommand>)
        ensures
            final(out)@ == old(out)@ + paint_commands(self.node.node.node_type, self.visuals, x, y),
    {
        match &self.node.node.node_type {
            NodeType::Text(content) => {
                let (r, g, b) = self.visuals.color_to_rgb();
                out.push(PaintCommand::MoveTo(x, y));
                out.push(PaintCommand::SetSourceRgb(r, g, b));
                out.push(PaintCommand::SetFontSize(self.visuals.font_size));
                out.push(PaintCommand::ShowText(content.clone()));
            },
            _ => {},
        }
        assert(final(out)@ =~= old(out)@ + paint_commands(
            self.node.node.node_type,
            self.visuals,
            x,
            y,
        ));
    }
}

/// Lays out a styled tree on a canvas and records the paint commands.
pub struct Renderer {
    pub bounds: Bounds,
    pub coords: Coordinates,
    pub commands: Vec<PaintCommand>,
}

impl Renderer {
    /// The cursor lies on the canvas.
    pub open spec fn wf(&self) -> bool {
        self.coords.x <= self.bounds.width && self.coords.y <= self.bounds.height
    }

    /// A renderer for a canvas of `width` by `height` pixels, cursor at the origin.
    pub fn new(width: u32, height: u32) -> (r: Renderer)
        ensures
            r.bounds.width == width * 1000,
            r.bounds.height == height * 1000,
            r.coords == (Coordinates { x: 0, y: 0 }),
            r.commands@.len() == 0,
    {
        Renderer {
            bounds: Bounds { width: width as u64 * 1000, height: height as u64 * 1000 },
            coords: Coordinates { x: 0, y: 0 },
            commands: Vec::new(),
        }
    }

    /// One full pass: clears the canvas, selects the font face, and walks the
    /// tree from the origin. The commands of the pass replace earlier ones.
    pub fn draw(&mut self, root_node: &StyledNode)
        ensures
            final(self).bounds == old(self).bounds,
            final(self).commands@ == seq![PaintCommand::Clear, PaintCommand::SelectFontFace]
                + walk(*root_node, 0, 0, old(self).bounds).0,
            final(self).coords == (Coordinates { x: 0, y: walk(*root_node, 0, 0, old(self).bounds).1 }),
    {
        self.coords = Coordinates { x: 0, y: 0 };
        self.commands = Vec::new();
        self.commands.push(PaintCommand::Clear);
        self.commands.push(PaintCommand::SelectFontFace);
        self.walk_node_tree(root_node);
    }

    /// Walks `next_node` and its subtree: moves down by the node's inner box
    /// and top offset and right by its left offset, paints it, walks the
    /// children in order, moves down by its bottom offset, and puts x back
    /// where it was before the node.
    pub fn walk_node_tree(&mut self, next_node: &StyledNode)
        requires
            old(self).wf(),
        ensures
            final(self).wf(),
            final(self).bounds == old(self).bounds,
            final(self).coords.x == old(self).coords.x,
            final(self).coords.y == walk(*next_node, old(self).coords.x, old(self).coords.y, old(self).bounds).1,
            final(self).commands@ == old(self).commands@ + walk(
                *next_node,
                old(self).coords.x,
                old(self).coords.y,
                old(self).bounds,
            ).0,
        decreases next_node,
    {
        let ghost b = self.bounds;
        let ghost start = self.commands@;
        let ghost y0 = self.coords.y;
        let painting_block = Block::new(next_node);
        let block_dimensions = painting_block.dimensions();
        let last_x = self.coords.x;
        self.coords.move_down(block_dimensions.inner_box.y, &self.bounds);
        self.coords.move_down(block_dimensions.outer_box.top_y, &self.bounds);
        self.coords.move_right(block_dimensions.outer_box.left_x, &self.bounds);
        painting_block.paint(self.coords.x, self.coords.y, &mut self.commands);
        let ghost x1 = self.coords.x;
        let ghost y1 = self.coords.y;
        let ghost base = self.commands@;
        let mut i: usize = 0;
        while i < next_node.children.len()
            invariant
                self.wf(),
                self.bounds == b,
                self.coords.x == x1,
                i <= next_node.children@.len(),
                base + walk_children(*next_node, 0, x1, y1, b).0 == self.commands@
                    + walk_children(*next_node, i as int, x1, self.coords.y, b).0,
                walk_children(*next_node, 0, x1, y1, b).1 == walk_children(
                    *next_node,
                    i as int,
                    x1,
                    self.coords.y,
                    b,
                ).1,
            decreases next_node.children@.len() - i,
        {
            let ghost before = self.commands@;
            let ghost y_before = self.coords.y;
            self.walk_node_tree(&next_node.children[i]);
            proof {
                let first = walk(next_node.children@[i as int], x1, y_before, b);
                let rest = walk_children(*next_node, i + 1, x1, first.1, b);
                assert(before + (first.0 + rest.0) =~= self.commands@ + rest.0);
            }
            i = i + 1;
        }
        assert(self.commands@ + walk_children(*next_node, i as int, x1, self.coords.y, b).0
            =~= self.commands@);
        assert(self.commands@ =~= start + walk(*next_node, last_x, y0, b).0);
        self.coords.move_down(block_dimensions.outer_box.bottom_y, &self.bounds);
        self.coords.reset_x(Some(last_x));
    }
}

} // verus!
