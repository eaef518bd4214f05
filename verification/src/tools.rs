//! The placement tools of an editor: a single square, a rectangle or a
//! circle, the latter two with a size.

use vstd::prelude::*;

verus! {

/// A placement tool.
#[derive(Debug, Clone, Copy, PartialEq, Eq, Structural)]
pub enum Tool {
    /// Places one cell.
    Place,
    /// Places a square of cells with the given side.
    Rect(isize),
    /// Places a disc of cells with the given diameter.
    Circle(isize),
}

impl Tool {
    /// The size of the tool: 1 for a single square.
    pub open spec fn size(self) -> int {
        match self {
            Tool::Place => 1,
            Tool::Rect(v) => v as int,
            Tool::Circle(v) => v as int,
        }
    }

    /// The tool with its size changed by `change`. A size of 1 or less makes
    /// it the tool for a single square; that tool grows into a rectangle.
    pub open spec fn scaled(self, change: int) -> Tool {
        let value = self.size() + change;
        if value <= 1 {
            Tool::Place
        } else {
            match self {
                Tool::Circle(_) => Tool::Circle(value as isize),
                _ => Tool::Rect(value as isize),
            }
        }
    }

    /// The place of the tool in the row of tools.
    pub open spec fn spec_index(self) -> usize {
        match self {
            Tool::Place => 0,
            Tool::Rect(_) => 1,
            Tool::Circle(_) => 2,
        }
    }
}

/// Changes the size of the tool by `change`.
pub fn scale_tool(tool: &mut Tool, change: isize)
    requires
        isize::MIN <= old(tool).size() + change <= isize::MAX,
    ensures
        *final(tool) == old(tool).scaled(change as int),
{
    let value = match *tool {
        Tool::Place => 1,
        Tool::Rect(v) => v,
        Tool::Circle(v) => v,
    } + change;
    if value < 1 {
        *tool = Tool::Place;
    } else {
        *tool = match (value, *tool) {
            (1, _) => Tool::Place,
            (_, Tool::Place) => Tool::Rect(value),
            (value, Tool::Rect(_)) => Tool::Rect(value),
            (value, Tool::Circle(_)) => Tool::Circle(value),
        }
    }
}

/// The place of the tool in the row of tools.
pub fn tool_to_index(tool: Tool) -> (index: usize)
    ensures
        index == tool.spec_index(),
{
    match tool {
        Tool::Place => 0,
        Tool::Rect(_) => 1,
        Tool::Circle(_) => 2,
    }
}

/// Whether the tool covers the square `(ox, oy)` of the box that it spans,
/// counted from the corner of the box. A rectangle covers its whole box. A
/// circle covers the squares whose centre is no further from the centre of
/// the box than half a square more than half the diameter, rounded down.
pub open spec fn covers(tool: Tool, ox: int, oy: int) -> bool {
    match tool {
        Tool::Circle(d) => {
            let half = d as int / 2;
            (ox - half) * (ox - half) + (oy - half) * (oy - half) <= half * half + half
        },
        _ => true,
    }
}

/// The size of the tool: 1 for a single square.
pub fn tool_size(tool: Tool) -> (size: isize)
    ensures
        size == tool.size(),
{
    match tool {
        Tool::Place => 1,
        Tool::Rect(d) => d,
        Tool::Circle(d) => d,
    }
}

/// Whether the tool covers the square `(ox, oy)` of the box that it spans.
pub fn tool_covers(tool: Tool, ox: isize, oy: isize) -> (r: bool)
    requires
        0 <= ox < tool.size(),
        0 <= oy < tool.size(),
    ensures
        r == covers(tool, ox as int, oy as int),
{
    match tool {
        Tool::Circle(d) => {
            let half: i128 = (d / 2) as i128;
            let dx: i128 = ox as i128 - half;
            let dy: i128 = oy as i128 - half;
            assert(-half <= dx <= half && -half <= dy <= half);
            assert(0 <= half <= 0x4000_0000_0000_0000);
            assert(0 <= half * half <= 0x1000_0000_0000_0000_0000_0000_0000_0000) by (nonlinear_arith)
                requires
                    0 <= half <= 0x4000_0000_0000_0000,
            ;
            assert(0 <= dx * dx <= half * half) by (nonlinear_arith)
                requires
                    -half <= dx <= half,
            ;
            assert(0 <= dy * dy <= half * half) by (nonlinear_arith)
                requires
                    -half <= dy <= half,
            ;
            dx * dx + dy * dy <= half * half + half
        },
        _ => true,
    }
}

} // verus!
