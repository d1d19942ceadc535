//! The walk of a line of sight through the grid of blocks, and where it ends.
use vstd::prelude::*;

use crate::block;
use crate::block::{properties, BlockID};
use crate::chunk;
use crate::chunk::{wrapping_sum, Position};
use crate::surface;
use crate::surface::is_smooth_granular;

verus! {

#[derive(Copy, Clone, Debug, PartialEq, Eq, Structural)]
pub enum Axis {
    X,
    Y,
    Z,
}

/// A side of a block.
#[derive(Copy, Clone, Debug, PartialEq, Eq, Structural)]
pub enum Face {
    PosX,
    NegX,
    PosY,
    NegY,
    PosZ,
    NegZ,
}

/// What a line of sight meets in a cell.
#[derive(Copy, Clone, Debug, PartialEq, Eq, Structural)]
pub enum RayCell {
    /// The line goes on.
    Open,
    /// A block with a sloping surface, which the line may miss.
    Loose,
    /// A block, seen from one side.
    Hard { face: Face, normal: Position },
}

/// A line of sight on its way through the grid.
#[derive(Copy, Clone, Debug, PartialEq, Eq, Structural)]
pub struct GridRay {
    pub current: Position,
    /// The direction of each axis: one, minus one, or zero.
    pub step: Position,
    /// The axis along which the current cell was entered.
    pub axis: Axis,
}

/// The axis whose next boundary is nearest, given which of two boundaries comes first.
pub open spec fn nearest_axis(x_before_y: bool, x_before_z: bool, y_before_z: bool) -> Axis {
    if x_before_y && x_before_z {
        Axis::X
    } else if y_before_z {
        Axis::Y
    } else {
        Axis::Z
    }
}

/// The cell next to another along an axis.
pub open spec fn next_cell(cell: Position, step: Position, axis: Axis) -> Position {
    match axis {
        Axis::X => Position { x: chunk::wrap_i32(cell.x + step.x), ..cell },
        Axis::Y => Position { y: chunk::wrap_i32(cell.y + step.y), ..cell },
        Axis::Z => Position { z: chunk::wrap_i32(cell.z + step.z), ..cell },
    }
}

/// The direction that a side faces.
pub open spec fn normal_of(face: Face) -> Position {
    match face {
        Face::PosX => Position { x: 1, y: 0, z: 0 },
        Face::NegX => Position { x: (-1) as i32, y: 0, z: 0 },
        Face::PosY => Position { x: 0, y: 1, z: 0 },
        Face::NegY => Position { x: 0, y: (-1) as i32, z: 0 },
        Face::PosZ => Position { x: 0, y: 0, z: 1 },
        Face::NegZ => Position { x: 0, y: 0, z: (-1) as i32 },
    }
}

/// The side through which a cell is entered: the one that faces against the way.
pub open spec fn entered_face(axis: Axis, step: Position) -> Face {
    match axis {
        Axis::X => if step.x > 0 {
            Face::NegX
        } else {
            Face::PosX
        },
        Axis::Y => if step.y > 0 {
            Face::NegY
        } else {
            Face::PosY
        },
        Axis::Z => if step.z > 0 {
            Face::NegZ
        } else {
            Face::PosZ
        },
    }
}

/// What a line of sight meets in a block.
pub open spec fn met(block: BlockID, axis: Axis, step: Position) -> RayCell {
    if !block::is_solid_block(block) {
        RayCell::Open
    } else if surface::is_loose(block) {
        RayCell::Loose
    } else {
        RayCell::Hard {
            face: entered_face(axis, step),
            normal: normal_of(entered_face(axis, step)),
        }
    }
}

/// Directions of a line of sight.
pub open spec fn is_direction(step: Position) -> bool {
    -1 <= step.x <= 1 && -1 <= step.y <= 1 && -1 <= step.z <= 1
}

/// The side through which a cell is entered faces the cell that the line comes from: a block
/// placed on that side stands where the line has just been.
pub proof fn law_entered_side_faces_back(cell: Position, step: Position, axis: Axis)
    requires
        is_direction(step),
        match axis {
            Axis::X => step.x != 0 && i32::MIN < cell.x < i32::MAX,
            Axis::Y => step.y != 0 && i32::MIN < cell.y < i32::MAX,
            Axis::Z => step.z != 0 && i32::MIN < cell.z < i32::MAX,
        },
    ensures
        ({
            let now = next_cell(cell, step, axis);
            let normal = normal_of(entered_face(axis, step));
            &&& now.x + normal.x == cell.x
            &&& now.y + normal.y == cell.y
            &&& now.z + normal.z == cell.z
        }),
{
}

/// The axis whose next boundary is nearest.
pub fn next_axis(x_before_y: bool, x_before_z: bool, y_before_z: bool) -> (r: Axis)
    ensures
        r == nearest_axis(x_before_y, x_before_z, y_before_z),
{
    if x_before_y && x_before_z {
        Axis::X
    } else if y_before_z {
        Axis::Y
    } else {
        Axis::Z
    }
}

/// The side that faces a direction; the last one for a direction that is none of theirs.
pub fn face_from_normal(normal: Position) -> (r: Face)
    ensures
        normal == normal_of(r) || (r == Face::NegZ && forall|f: Face| normal != #[trigger] normal_of(
            f,
        )),
{
    if normal.x == 1 && normal.y == 0 && normal.z == 0 {
        Face::PosX
    } else if normal.x == -1 && normal.y == 0 && normal.z == 0 {
        Face::NegX
    } else if normal.x == 0 && normal.y == 1 && normal.z == 0 {
        Face::PosY
    } else if normal.x == 0 && normal.y == -1 && normal.z == 0 {
        Face::NegY
    } else if normal.x == 0 && normal.y == 0 && normal.z == 1 {
        Face::PosZ
    } else {
        Face::NegZ
    }
}

/// The side through which a cell is entered, and the direction that it faces.
pub fn face_and_normal(axis: Axis, step: Position) -> (r: (Face, Position))
    ensures
        r.0 == entered_face(axis, step),
        r.1 == normal_of(r.0),
{
    match axis {
        Axis::X => if step.x > 0 {
            (Face::NegX, Position::new(-1, 0, 0))
        } else {
            (Face::PosX, Position::new(1, 0, 0))
        },
        Axis::Y => if step.y > 0 {
            (Face::NegY, Position::new(0, -1, 0))
        } else {
            (Face::PosY, Position::new(0, 1, 0))
        },
        Axis::Z => if step.z > 0 {
            (Face::NegZ, Position::new(0, 0, -1))
        } else {
            (Face::PosZ, Position::new(0, 0, 1))
        },
    }
}

impl GridRay {
    /// A line of sight that begins in a cell.
    pub fn new(start: Position, step: Position) -> (r: GridRay)
        ensures
            r == (GridRay { current: start, step, axis: Axis::Y }),
    {
        GridRay { current: start, step, axis: Axis::Y }
    }

    /// Goes into the next cell, given which of two boundaries comes first.
    pub fn advance(&mut self, x_before_y: bool, x_before_z: bool, y_before_z: bool) -> (r: Axis)
        ensures
            r == nearest_axis(x_before_y, x_before_z, y_before_z),
            *final(self) == (GridRay {
                current: next_cell(old(self).current, old(self).step, r),
                step: old(self).step,
                axis: r,
            }),
    {
        let axis = next_axis(x_before_y, x_before_z, y_before_z);
        match axis {
            Axis::X => self.current.x = wrapping_sum(self.current.x, self.step.x),
            Axis::Y => self.current.y = wrapping_sum(self.current.y, self.step.y),
            Axis::Z => self.current.z = wrapping_sum(self.current.z, self.step.z),
        }
        self.axis = axis;
        axis
    }

    /// What the line meets in the current cell.
    pub fn look(&self, block: BlockID) -> (r: RayCell)
        ensures
            r == met(block, self.axis, self.step),
    {
        if !properties(block).solid {
            return RayCell::Open;
        }
        if is_smooth_granular(block) {
            return RayCell::Loose;
        }
        let (face, normal) = face_and_normal(self.axis, self.step);
        RayCell::Hard { face, normal }
    }
}

/// How far away the next boundary of an axis is, given the distances along all three.
pub open spec fn along(axis: Axis, tx: int, ty: int, tz: int) -> int {
    match axis {
        Axis::X => tx,
        Axis::Y => ty,
        Axis::Z => tz,
    }
}

/// A coordinate of a position.
pub open spec fn coordinate(p: Position, axis: Axis) -> int {
    match axis {
        Axis::X => p.x as int,
        Axis::Y => p.y as int,
        Axis::Z => p.z as int,
    }
}

/// A line of sight crosses the nearest boundary first: no other boundary is nearer than the one of
/// the chosen axis. Where two are equally near, the later axis is chosen.
pub proof fn law_the_nearest_boundary_is_crossed_first(tx: int, ty: int, tz: int, other: Axis)
    ensures
        ({
            let axis = nearest_axis(tx < ty, tx < tz, ty < tz);
            &&& along(axis, tx, ty, tz) <= along(other, tx, ty, tz)
            &&& along(axis, tx, ty, tz) == along(other, tx, ty, tz) ==> axis == Axis::Z || other
                == Axis::X || axis == other
        }),
{
}

/// Crossing a boundary changes the coordinate of its axis by one step, and no other.
pub proof fn law_a_step_leads_to_the_neighbour(cell: Position, step: Position, axis: Axis, other: Axis)
    requires
        is_direction(step),
        i32::MIN < coordinate(cell, axis) < i32::MAX,
    ensures
        coordinate(next_cell(cell, step, axis), other) - coordinate(cell, other) == if other
            == axis {
            coordinate(step, axis)
        } else {
            0
        },
{
}

/// The direction of a side is one step long, and lies along the axis that the side is named for;
/// opposite sides face opposite ways, and no two sides the same way.
pub proof fn law_sides_face_their_own_way(a: Face, b: Face)
    ensures
        normal_of(a).x == (if a == Face::PosX {
            1int
        } else if a == Face::NegX {
            -1
        } else {
            0
        }),
        normal_of(a).y == (if a == Face::PosY {
            1int
        } else if a == Face::NegY {
            -1
        } else {
            0
        }),
        normal_of(a).z == (if a == Face::PosZ {
            1int
        } else if a == Face::NegZ {
            -1
        } else {
            0
        }),
        normal_of(a) == normal_of(b) ==> a == b,
{
}

/// A line meets a block on a side that faces against the line. It passes through exactly those
/// blocks that are not solid by the table of materials, and only loose ones are left to a closer
/// look.
pub proof fn law_a_line_is_stopped_from_the_front(
    block: BlockID,
    axis: Axis,
    step: Position,
    p: block::BlockProperties,
)
    requires
        block::describes(p, block),
        is_direction(step),
        coordinate(step, axis) != 0,
    ensures
        met(block, axis, step) is Open <==> !p.solid,
        met(block, axis, step) is Loose <==> p.solid && p.visual_class
            == block::VisualClass::SmoothGranular,
        met(block, axis, step) matches RayCell::Hard { face, normal } ==> {
            &&& normal == normal_of(face)
            &&& coordinate(normal, axis) == -coordinate(step, axis)
            &&& forall|other: Axis| other != axis ==> #[trigger] coordinate(normal, other) == 0
        },
{
}

} // verus!
