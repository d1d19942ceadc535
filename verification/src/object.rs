//! Bodies of material that have left the static field.
//!
//! This is the grid part of a free object: which cells it took, relative to which corner, and how
//! much they weigh together. Where it is at a moment of its flight is a matter of floating point
//! and stands outside.
use vstd::prelude::*;

use crate::block::{BlockID, CellFlags, MaterialCell, MaterialID};
use crate::chunk::Position;
use crate::field::ObjectID;
use crate::protocol::Vec3Bits;
use crate::block;

verus! {

/// A body of cells cut out of the field.
#[derive(Clone, Debug, PartialEq)]
pub struct FreeObject {
    pub id: ObjectID,
    /// Lower corner of the body on the grid.
    pub origin: Position,
    /// Upper corner of the body on the grid: one past its highest cells.
    pub corner: Position,
    pub samples: Vec<ObjectSample>,
    pub material_summary: MaterialSummary,
    pub state: FreeObjectState,
    /// Loose grains slide; hard bodies fall straight.
    pub granular: bool,
}

/// Where a free object is.
#[derive(Copy, Clone, Debug, PartialEq, Eq, Structural)]
pub struct Transform {
    pub position: Vec3Bits,
}

/// What stands for a free object when others run into it.
#[derive(Copy, Clone, Debug, PartialEq, Eq, Structural)]
pub enum CollisionProxy {
    Aabb { min: Vec3Bits, max: Vec3Bits },
    SampleCloud,
}

/// A free object with its flight. The flight is computed outside; here it is kept as it is.
#[derive(Clone, Debug, PartialEq)]
pub struct ObjectInFlight {
    pub body: FreeObject,
    pub transform: Transform,
    pub velocity: Vec3Bits,
    pub angular_velocity: Vec3Bits,
    /// Mass in kilograms, by its bit pattern.
    pub mass: u32,
    pub collision_proxy: CollisionProxy,
}

/// One cell of a free object.
#[derive(Copy, Clone, Debug, PartialEq, Eq)]
pub struct ObjectSample {
    /// Offset from the lower corner of the body.
    pub local_pos: [i16; 3],
    /// The cell as it was cut out; records of an older form leave it empty.
    pub cell: MaterialCell,
    /// The material alone, for records of an older form.
    pub material: MaterialID,
    /// The occupancy alone, for records of an older form.
    pub mass: u8,
}

/// What a free object consists of.
#[derive(Copy, Clone, Debug, PartialEq, Eq, Structural)]
pub struct MaterialSummary {
    pub dominant: MaterialID,
    pub sample_count: u32,
    pub total_mass: u32,
}

/// Stage in the life of a free object.
#[derive(Copy, Clone, Debug, PartialEq, Eq, Structural)]
pub enum FreeObjectState {
    Dynamic,
    Settled,
    Projected,
}

/// A cell with its place.
pub type PlacedCell = (Position, MaterialCell);

/// Occupancy of a cell, its mixed-in material included.
pub open spec fn cell_mass(cell: MaterialCell) -> nat {
    cell.occupancy as nat + match cell.secondary {
        Some(mix) => mix.occupancy as nat,
        None => 0,
    }
}

/// Occupancy of all cells together.
pub open spec fn total_mass(cells: Seq<PlacedCell>) -> nat
    decreases cells.len(),
{
    if cells.len() == 0 {
        0
    } else {
        total_mass(cells.drop_last()) + cell_mass(cells.last().1)
    }
}

/// Whether `min` is the lower corner of the box around the cells.
pub open spec fn is_lower_corner(min: Position, cells: Seq<PlacedCell>) -> bool {
    &&& forall|i: int|
        0 <= i < cells.len() ==> min.x <= (#[trigger] cells[i]).0.x && min.y <= cells[i].0.y
            && min.z <= cells[i].0.z
    &&& exists|i: int| 0 <= i < cells.len() && (#[trigger] cells[i]).0.x == min.x
    &&& exists|i: int| 0 <= i < cells.len() && (#[trigger] cells[i]).0.y == min.y
    &&& exists|i: int| 0 <= i < cells.len() && (#[trigger] cells[i]).0.z == min.z
}

/// Whether `max` is the highest cell coordinate on each axis.
pub open spec fn is_upper_corner(max: Position, cells: Seq<PlacedCell>) -> bool {
    &&& forall|i: int|
        0 <= i < cells.len() ==> max.x >= (#[trigger] cells[i]).0.x && max.y >= cells[i].0.y
            && max.z >= cells[i].0.z
    &&& exists|i: int| 0 <= i < cells.len() && (#[trigger] cells[i]).0.x == max.x
    &&& exists|i: int| 0 <= i < cells.len() && (#[trigger] cells[i]).0.y == max.y
    &&& exists|i: int| 0 <= i < cells.len() && (#[trigger] cells[i]).0.z == max.z
}

/// Whether the numbers of a body of these cells, moved up by `offset_y`, fit their types.
pub open spec fn body_fits(cells: Seq<PlacedCell>, offset_y: i32) -> bool {
    &&& total_mass(cells) <= u32::MAX
    &&& forall|i: int|
        0 <= i < cells.len() ==> (#[trigger] cells[i]).0.x < i32::MAX && cells[i].0.y < i32::MAX
            && cells[i].0.z < i32::MAX && i32::MIN <= cells[i].0.y + offset_y < i32::MAX
    &&& forall|i: int, j: int|
        0 <= i < cells.len() && 0 <= j < cells.len() ==> (#[trigger] cells[i]).0.x - (
        #[trigger] cells[j]).0.x <= i32::MAX && cells[i].0.y - cells[j].0.y <= i32::MAX
            && cells[i].0.z - cells[j].0.z <= i32::MAX
}

/// The sample of one cell of a body whose lower corner is `min`.
pub open spec fn is_sample_of(sample: ObjectSample, cell: PlacedCell, min: Position) -> bool {
    &&& sample.local_pos@ == seq![
        (cell.0.x - min.x) as i16,
        (cell.0.y - min.y) as i16,
        (cell.0.z - min.z) as i16,
    ]
    &&& sample.cell == cell.1
    &&& sample.material == cell.1.primary
    &&& sample.mass == cell.1.occupancy
}

/// Whether `body` is made of `cells`, which lie `offset_y` below it.
pub open spec fn is_body_of(body: FreeObject, cells: Seq<PlacedCell>, offset_y: i32) -> bool {
    exists|min: Position, max: Position|
        {
            &&& #[trigger] is_lower_corner(min, cells)
            &&& #[trigger] is_upper_corner(max, cells)
            &&& body.origin == (Position { x: min.x, y: (min.y + offset_y) as i32, z: min.z })
            &&& body.corner.x == max.x + 1
            &&& body.corner.y == max.y + 1 + offset_y
            &&& body.corner.z == max.z + 1
            &&& body.samples@.len() == cells.len()
            &&& forall|i: int|
                0 <= i < cells.len() ==> is_sample_of(#[trigger] body.samples@[i], cells[i], min)
            &&& body.material_summary.dominant == cells[0].1.primary
            &&& body.material_summary.sample_count == cells.len() as u32
            &&& body.material_summary.total_mass == total_mass(cells)
        }
}

proof fn lemma_total_mass_grows(cells: Seq<PlacedCell>, i: int)
    requires
        0 <= i <= cells.len(),
    ensures
        total_mass(cells.take(i)) <= total_mass(cells),
    decreases cells.len() - i,
{
    if i < cells.len() {
        lemma_total_mass_grows(cells, i + 1);
        let longer = cells.take(i + 1);
        assert(longer.drop_last() == cells.take(i));
    } else {
        assert(cells.take(i) == cells);
    }
}

/// Boxes and weighs the cells: lower corner, highest coordinates, occupancy.
fn measure(cells: &[PlacedCell]) -> (r: (Position, Position, u32))
    requires
        cells@.len() > 0,
        total_mass(cells@) <= u32::MAX,
    ensures
        is_lower_corner(r.0, cells@),
        is_upper_corner(r.1, cells@),
        r.2 == total_mass(cells@),
{
    let mut min: Position = cells[0].0;
    let mut max: Position = cells[0].0;
    let mut mass: u32 = 0;
    let mut i: usize = 0;
    let ghost mut at: (int, int, int, int, int, int) = (0, 0, 0, 0, 0, 0);
    while i < cells.len()
        invariant
            i <= cells@.len(),
            cells@.len() > 0,
            total_mass(cells@) <= u32::MAX,
            mass == total_mass(cells@.take(i as int)),
            forall|k: int|
                0 <= k < i ==> min.x <= (#[trigger] cells@[k]).0.x && min.y <= cells@[k].0.y && min.z
                    <= cells@[k].0.z,
            forall|k: int|
                0 <= k < i ==> max.x >= (#[trigger] cells@[k]).0.x && max.y >= cells@[k].0.y && max.z
                    >= cells@[k].0.z,
            0 <= at.0 < cells@.len() && cells@[at.0].0.x == min.x,
            0 <= at.1 < cells@.len() && cells@[at.1].0.y == min.y,
            0 <= at.2 < cells@.len() && cells@[at.2].0.z == min.z,
            0 <= at.3 < cells@.len() && cells@[at.3].0.x == max.x,
            0 <= at.4 < cells@.len() && cells@[at.4].0.y == max.y,
            0 <= at.5 < cells@.len() && cells@[at.5].0.z == max.z,
        decreases cells@.len() - i,
    {
        let pos = cells[i].0;
        let cell = cells[i].1;
        proof {
            let longer = cells@.take(i + 1);
            assert(longer.drop_last() == cells@.take(i as int));
            assert(longer.last() == cells@[i as int]);
            lemma_total_mass_grows(cells@, i + 1);
            at = (
                if pos.x < min.x { i as int } else { at.0 },
                if pos.y < min.y { i as int } else { at.1 },
                if pos.z < min.z { i as int } else { at.2 },
                if pos.x > max.x { i as int } else { at.3 },
                if pos.y > max.y { i as int } else { at.4 },
                if pos.z > max.z { i as int } else { at.5 },
            );
        }
        if pos.x < min.x {
            min.x = pos.x;
        }
        if pos.y < min.y {
            min.y = pos.y;
        }
        if pos.z < min.z {
            min.z = pos.z;
        }
        if pos.x > max.x {
            max.x = pos.x;
        }
        if pos.y > max.y {
            max.y = pos.y;
        }
        if pos.z > max.z {
            max.z = pos.z;
        }
        mass += cell.occupancy as u32;
        if let Some(mix) = cell.secondary {
            mass += mix.occupancy as u32;
        }
        i += 1;
    }
    proof {
        assert(cells@.take(cells@.len() as int) == cells@);
    }
    (min, max, mass)
}

impl FreeObject {
    /// A hard body about to fall.
    pub fn dynamic_from_cells(id: ObjectID, cells: &[PlacedCell]) -> (r: Option<FreeObject>)
        requires
            body_fits(cells@, 0),
        ensures
            r is Some <==> cells@.len() > 0,
            r matches Some(body) ==> is_body_of(body, cells@, 0) && body.id == id && body.state
                == FreeObjectState::Dynamic && !body.granular,
    {
        FreeObject::from_cells(id, cells, 0, FreeObjectState::Dynamic, false)
    }

    /// A grain of loose material about to fall and slide.
    pub fn dynamic_grain_from_cells(id: ObjectID, cells: &[PlacedCell]) -> (r: Option<FreeObject>)
        requires
            body_fits(cells@, 0),
        ensures
            r is Some <==> cells@.len() > 0,
            r matches Some(body) ==> is_body_of(body, cells@, 0) && body.id == id && body.state
                == FreeObjectState::Dynamic && body.granular,
    {
        FreeObject::from_cells(id, cells, 0, FreeObjectState::Dynamic, true)
    }

    /// A body shown where it comes to rest, `final_offset_y` above where it was cut out.
    pub fn projected_from_cells(
        id: ObjectID,
        cells: &[PlacedCell],
        final_offset_y: i32,
    ) -> (r: Option<FreeObject>)
        requires
            body_fits(cells@, final_offset_y),
        ensures
            r is Some <==> cells@.len() > 0,
            r matches Some(body) ==> is_body_of(body, cells@, final_offset_y) && body.id == id
                && body.state == FreeObjectState::Projected && !body.granular,
    {
        FreeObject::from_cells(id, cells, final_offset_y, FreeObjectState::Projected, false)
    }

    fn from_cells(
        id: ObjectID,
        cells: &[PlacedCell],
        final_offset_y: i32,
        state: FreeObjectState,
        granular: bool,
    ) -> (r: Option<FreeObject>)
        requires
            body_fits(cells@, final_offset_y),
        ensures
            r is Some <==> cells@.len() > 0,
            r matches Some(body) ==> is_body_of(body, cells@, final_offset_y) && body.id == id
                && body.state == state && body.granular == granular,
    {
        if cells.len() == 0 {
            return None;
        }
        let (min, max, mass) = measure(cells);
        let mut samples: Vec<ObjectSample> = Vec::new();
        let mut i: usize = 0;
        while i < cells.len()
            invariant
                i <= cells@.len(),
                body_fits(cells@, final_offset_y),
                is_lower_corner(min, cells@),
                samples@.len() == i,
                forall|k: int| 0 <= k < i ==> is_sample_of(#[trigger] samples@[k], cells@[k], min),
            decreases cells@.len() - i,
        {
            let pos = cells[i].0;
            let cell = cells[i].1;
            proof {
                let kx = choose|k: int| 0 <= k < cells@.len() && (#[trigger] cells@[k]).0.x == min.x;
                let ky = choose|k: int| 0 <= k < cells@.len() && (#[trigger] cells@[k]).0.y == min.y;
                let kz = choose|k: int| 0 <= k < cells@.len() && (#[trigger] cells@[k]).0.z == min.z;
                assert(cells@[i as int].0.x - cells@[kx].0.x <= i32::MAX);
                assert(cells@[i as int].0.y - cells@[ky].0.y <= i32::MAX);
                assert(cells@[i as int].0.z - cells@[kz].0.z <= i32::MAX);
            }
            let dx: i32 = pos.x - min.x;
            let dy: i32 = pos.y - min.y;
            let dz: i32 = pos.z - min.z;
            let sample = ObjectSample {
                local_pos: [
                    #[verifier::truncate]
                    (dx as i16),
                    #[verifier::truncate]
                    (dy as i16),
                    #[verifier::truncate]
                    (dz as i16),
                ],
                cell,
                material: cell.primary,
                mass: cell.occupancy,
            };
            proof {
                assert(sample.local_pos@ =~= seq![dx as i16, dy as i16, dz as i16]);
            }
            samples.push(sample);
            i += 1;
        }
        let body = FreeObject {
            id,
            origin: Position { x: min.x, y: min.y + final_offset_y, z: min.z },
            corner: Position { x: max.x + 1, y: max.y + 1 + final_offset_y, z: max.z + 1 },
            samples,
            material_summary: MaterialSummary {
                dominant: cells[0].1.primary,
                sample_count: #[verifier::truncate]
                (cells.len() as u32),
                total_mass: mass,
            },
            state,
            granular,
        };
        proof {
            assert(is_lower_corner(min, cells@) && is_upper_corner(max, cells@));
        }
        Some(body)
    }

    /// Smallest and largest offset of the samples on each axis; `None` without samples.
    pub fn sample_bounds(&self) -> (r: Option<([i16; 3], [i16; 3])>)
        ensures
            r is None <==> self.samples@.len() == 0,
            r matches Some(b) ==> forall|axis: int| 0 <= axis < 3 ==> bounds_axis(
                self.samples@,
                #[trigger] b.0@[axis],
                b.1@[axis],
                axis,
            ),
    {
        if self.samples.len() == 0 {
            return None;
        }
        let (x0, x1) = self.axis_bounds(0);
        let (y0, y1) = self.axis_bounds(1);
        let (z0, z1) = self.axis_bounds(2);
        Some(([x0, y0, z0], [x1, y1, z1]))
    }

    fn axis_bounds(&self, axis: usize) -> (r: (i16, i16))
        requires
            self.samples@.len() > 0,
            axis < 3,
        ensures
            bounds_axis(self.samples@, r.0, r.1, axis as int),
    {
        let mut low: i16 = self.samples[0].local_pos[axis];
        let mut high: i16 = low;
        let mut i: usize = 0;
        let ghost mut at: (int, int) = (0, 0);
        while i < self.samples.len()
            invariant
                i <= self.samples@.len(),
                axis < 3,
                forall|k: int|
                    0 <= k < i ==> low <= (#[trigger] self.samples@[k]).local_pos@[axis as int]
                        <= high,
                0 <= at.0 < self.samples@.len() && self.samples@[at.0].local_pos@[axis as int] == low,
                0 <= at.1 < self.samples@.len() && self.samples@[at.1].local_pos@[axis as int]
                    == high,
            decreases self.samples@.len() - i,
        {
            let v: i16 = self.samples[i].local_pos[axis];
            if v < low {
                low = v;
                proof {
                    at.0 = i as int;
                }
            }
            if v > high {
                high = v;
                proof {
                    at.1 = i as int;
                }
            }
            i += 1;
        }
        (low, high)
    }

    /// The cells of the body with its lower corner at `base`.
    pub fn cells_at_position(&self, base: Position) -> (r: Vec<PlacedCell>)
        requires
            fits_at(self.samples@, base),
        ensures
            r@ == cells_at(self.samples@, base),
    {
        let mut cells: Vec<PlacedCell> = Vec::new();
        let mut i: usize = 0;
        while i < self.samples.len()
            invariant
                i <= self.samples@.len(),
                fits_at(self.samples@, base),
                cells@.len() == i,
                forall|k: int|
                    0 <= k < i ==> #[trigger] cells@[k] == cells_at(self.samples@, base)[k],
            decreases self.samples@.len() - i,
        {
            let sample = &self.samples[i];
            assert(offset_fits(base, self.samples@[i as int].local_pos));
            let place = Position {
                x: base.x + sample.local_pos[0] as i32,
                y: base.y + sample.local_pos[1] as i32,
                z: base.z + sample.local_pos[2] as i32,
            };
            cells.push((place, sample.cell()));
            i += 1;
        }
        proof {
            assert(cells@ =~= cells_at(self.samples@, base));
        }
        cells
    }

    /// The cells of the body where it is.
    pub fn cells_at_current_position(&self) -> (r: Vec<PlacedCell>)
        requires
            fits_at(self.samples@, self.origin),
        ensures
            r@ == cells_at(self.samples@, self.origin),
    {
        self.cells_at_position(self.origin)
    }
}

/// Whether `low` and `high` are the extreme offsets of the samples on an axis.
pub open spec fn bounds_axis(samples: Seq<ObjectSample>, low: i16, high: i16, axis: int) -> bool {
    &&& forall|i: int|
        0 <= i < samples.len() ==> low <= (#[trigger] samples[i]).local_pos@[axis] <= high
    &&& exists|i: int| 0 <= i < samples.len() && (#[trigger] samples[i]).local_pos@[axis] == low
    &&& exists|i: int| 0 <= i < samples.len() && (#[trigger] samples[i]).local_pos@[axis] == high
}

pub open spec fn offset_fits(base: Position, local: [i16; 3]) -> bool {
    &&& i32::MIN <= base.x + local@[0] <= i32::MAX
    &&& i32::MIN <= base.y + local@[1] <= i32::MAX
    &&& i32::MIN <= base.z + local@[2] <= i32::MAX
}

/// A position moved by an offset.
pub open spec fn offset_by(base: Position, local: [i16; 3]) -> Position {
    Position {
        x: (base.x + local@[0]) as i32,
        y: (base.y + local@[1]) as i32,
        z: (base.z + local@[2]) as i32,
    }
}

/// Whether every sample has a place on the grid when the body's lower corner is at `base`.
pub open spec fn fits_at(samples: Seq<ObjectSample>, base: Position) -> bool {
    forall|i: int|
        0 <= i < samples.len() ==> offset_fits(base, (#[trigger] samples[i]).local_pos)
}

/// The cells that samples stand for when the body's lower corner is at `base`.
pub open spec fn cells_at(samples: Seq<ObjectSample>, base: Position) -> Seq<PlacedCell> {
    Seq::new(
        samples.len(),
        |i: int| (offset_by(base, samples[i].local_pos), kept_cell(samples[i])),
    )
}

/// Cells moved up by `offset_y`.
pub open spec fn raised(cells: Seq<PlacedCell>, offset_y: i32) -> Seq<PlacedCell> {
    Seq::new(
        cells.len(),
        |i: int|
            (
                Position {
                    x: cells[i].0.x,
                    y: (cells[i].0.y + offset_y) as i32,
                    z: cells[i].0.z,
                },
                cells[i].1,
            ),
    )
}

/// The cell that a sample stands for: the recorded one, or one rebuilt from an older record.
pub open spec fn kept_cell(sample: ObjectSample) -> MaterialCell {
    if !sample.cell.holds_nothing() {
        sample.cell
    } else if sample.material.0 != 0 && sample.mass > 0 {
        MaterialCell {
            occupancy: sample.mass,
            primary: sample.material,
            secondary: None,
            flags: CellFlags(0),
        }
    } else {
        block::empty_cell()
    }
}

impl ObjectSample {
    pub fn cell(&self) -> (r: MaterialCell)
        ensures
            r == kept_cell(*self),
    {
        if !self.cell.is_empty() {
            self.cell
        } else if self.material != BlockID(BlockID::AIR) && self.mass > 0 {
            MaterialCell {
                occupancy: self.mass,
                primary: self.material,
                secondary: None,
                flags: CellFlags::empty(),
            }
        } else {
            MaterialCell::empty()
        }
    }
}

/// A body covers the cells that it was made of, in the same order, moved up as far as it was
/// moved itself, as long as it is narrower than the range of its offsets and none of its cells is
/// empty. A body that was not moved covers them where they were cut out.
pub proof fn law_body_put_back_covers_its_cells(
    body: FreeObject,
    cells: Seq<PlacedCell>,
    offset_y: i32,
)
    requires
        is_body_of(body, cells, offset_y),
        forall|i: int|
            0 <= i < cells.len() ==> !(#[trigger] cells[i]).1.holds_nothing() && i32::MIN
                <= cells[i].0.y + offset_y,
        forall|i: int, j: int|
            0 <= i < cells.len() && 0 <= j < cells.len() ==> (#[trigger] cells[i]).0.x - (
            #[trigger] cells[j]).0.x <= i16::MAX && cells[i].0.y - cells[j].0.y <= i16::MAX
                && cells[i].0.z - cells[j].0.z <= i16::MAX,
    ensures
        fits_at(body.samples@, body.origin),
        cells_at(body.samples@, body.origin) == raised(cells, offset_y),
        offset_y == 0 ==> cells_at(body.samples@, body.origin) == cells,
{
    let (min, max) = choose|min: Position, max: Position|
        {
            &&& #[trigger] is_lower_corner(min, cells)
            &&& #[trigger] is_upper_corner(max, cells)
            &&& body.origin == (Position { x: min.x, y: (min.y + offset_y) as i32, z: min.z })
            &&& body.corner.x == max.x + 1
            &&& body.corner.y == max.y + 1 + offset_y
            &&& body.corner.z == max.z + 1
            &&& body.samples@.len() == cells.len()
            &&& forall|i: int|
                0 <= i < cells.len() ==> is_sample_of(#[trigger] body.samples@[i], cells[i], min)
            &&& body.material_summary.dominant == cells[0].1.primary
            &&& body.material_summary.sample_count == cells.len() as u32
            &&& body.material_summary.total_mass == total_mass(cells)
        };
    assert forall|i: int| 0 <= i < cells.len() implies {
        &&& offset_fits(body.origin, (#[trigger] body.samples@[i]).local_pos)
        &&& cells_at(body.samples@, body.origin)[i] == raised(cells, offset_y)[i]
    } by {
        assert(is_sample_of(body.samples@[i], cells[i], min));
        let local = body.samples@[i].local_pos@;
        assert(local[0] == (cells[i].0.x - min.x) as i16);
        assert(local[1] == (cells[i].0.y - min.y) as i16);
        assert(local[2] == (cells[i].0.z - min.z) as i16);
    }
    assert(cells_at(body.samples@, body.origin) =~= raised(cells, offset_y));
    if offset_y == 0 {
        assert(raised(cells, offset_y) =~= cells);
    }
}

/// The mass of a body is that of its cells together, of their main material and of what is mixed
/// in: one cell more adds its own.
pub proof fn law_masses_add_up(cells: Seq<PlacedCell>, more: PlacedCell)
    ensures
        total_mass(Seq::empty()) == 0,
        more.1.secondary is None ==> total_mass(cells.push(more)) == total_mass(cells)
            + more.1.occupancy,
        more.1.secondary matches Some(mix) ==> total_mass(cells.push(more)) == total_mass(cells)
            + more.1.occupancy + mix.occupancy,
{
    assert(cells.push(more).drop_last() =~= cells);
}

/// Every cell of a body, moved up as far as the body, lies in its box, and the box is no larger
/// than that: on each axis some cell lies at either end of it.
pub proof fn law_a_body_lies_in_its_box(
    body: FreeObject,
    cells: Seq<PlacedCell>,
    offset_y: i32,
    i: int,
)
    requires
        is_body_of(body, cells, offset_y),
        body_fits(cells, offset_y),
        0 <= i < cells.len(),
    ensures
        body.origin.x <= cells[i].0.x < body.corner.x,
        body.origin.y <= cells[i].0.y + offset_y < body.corner.y,
        body.origin.z <= cells[i].0.z < body.corner.z,
        exists|k: int| 0 <= k < cells.len() && (#[trigger] cells[k]).0.x == body.origin.x,
        exists|k: int|
            0 <= k < cells.len() && (#[trigger] cells[k]).0.y + offset_y == body.origin.y,
        exists|k: int| 0 <= k < cells.len() && (#[trigger] cells[k]).0.z == body.origin.z,
        exists|k: int| 0 <= k < cells.len() && (#[trigger] cells[k]).0.x + 1 == body.corner.x,
        exists|k: int|
            0 <= k < cells.len() && (#[trigger] cells[k]).0.y + 1 + offset_y == body.corner.y,
        exists|k: int| 0 <= k < cells.len() && (#[trigger] cells[k]).0.z + 1 == body.corner.z,
        body.samples@.len() == cells.len(),
        body.samples@[i].cell == cells[i].1,
        body.material_summary.dominant == cells[0].1.primary,
{
    let (min, max) = choose|min: Position, max: Position|
        {
            &&& #[trigger] is_lower_corner(min, cells)
            &&& #[trigger] is_upper_corner(max, cells)
            &&& body.origin == (Position { x: min.x, y: (min.y + offset_y) as i32, z: min.z })
            &&& body.corner.x == max.x + 1
            &&& body.corner.y == max.y + 1 + offset_y
            &&& body.corner.z == max.z + 1
            &&& body.samples@.len() == cells.len()
            &&& forall|i: int|
                0 <= i < cells.len() ==> is_sample_of(#[trigger] body.samples@[i], cells[i], min)
            &&& body.material_summary.dominant == cells[0].1.primary
            &&& body.material_summary.sample_count == cells.len() as u32
            &&& body.material_summary.total_mass == total_mass(cells)
        };
    assert(is_sample_of(body.samples@[i], cells[i], min));
    let k = choose|k: int| 0 <= k < cells.len() && (#[trigger] cells[k]).0.y == min.y;
    assert(cells[k].0.y + offset_y == body.origin.y);
    let h = choose|h: int| 0 <= h < cells.len() && (#[trigger] cells[h]).0.y == max.y;
    assert(cells[h].0.y + 1 + offset_y == body.corner.y);
    let a = choose|a: int| 0 <= a < cells.len() && (#[trigger] cells[a]).0.x == max.x;
    assert(cells[a].0.x + 1 == body.corner.x);
    let c = choose|c: int| 0 <= c < cells.len() && (#[trigger] cells[c]).0.z == max.z;
    assert(cells[c].0.z + 1 == body.corner.z);
}

/// A body put down elsewhere keeps its shape: all of its cells are moved by the same way, and are
/// what they were.
pub proof fn law_bodies_are_moved_as_a_whole(
    samples: Seq<ObjectSample>,
    from: Position,
    to: Position,
    i: int,
)
    requires
        fits_at(samples, from),
        fits_at(samples, to),
        0 <= i < samples.len(),
    ensures
        cells_at(samples, to).len() == cells_at(samples, from).len(),
        cells_at(samples, to)[i].0.x - cells_at(samples, from)[i].0.x == to.x - from.x,
        cells_at(samples, to)[i].0.y - cells_at(samples, from)[i].0.y == to.y - from.y,
        cells_at(samples, to)[i].0.z - cells_at(samples, from)[i].0.z == to.z - from.z,
        cells_at(samples, to)[i].1 == cells_at(samples, from)[i].1,
{
    assert(offset_fits(from, samples[i].local_pos));
    assert(offset_fits(to, samples[i].local_pos));
}

/// A sample stands for the cell on record; only an older record, which has none, is rebuilt, with
/// its material and mass, and one without either stands for nothing.
pub proof fn law_samples_keep_their_cell(sample: ObjectSample)
    ensures
        !sample.cell.holds_nothing() ==> kept_cell(sample) == sample.cell,
        sample.cell.holds_nothing() && sample.material.0 != 0 && sample.mass > 0 ==> {
            &&& kept_cell(sample).primary == sample.material
            &&& kept_cell(sample).occupancy == sample.mass
            &&& kept_cell(sample).secondary is None
        },
        sample.cell.holds_nothing() && (sample.material.0 == 0 || sample.mass == 0) ==> kept_cell(
            sample,
        ).holds_nothing(),
{
}

/// A sample stands as far from the corner of its body as its cell does, and holds as much of the
/// same.
pub proof fn law_samples_are_their_cells(
    a: ObjectSample,
    b: ObjectSample,
    cell: PlacedCell,
    other: PlacedCell,
    min: Position,
)
    requires
        is_sample_of(a, cell, min),
        is_sample_of(b, other, min),
        -0x4000 <= cell.0.x - min.x < 0x4000,
        -0x4000 <= cell.0.y - min.y < 0x4000,
        -0x4000 <= cell.0.z - min.z < 0x4000,
        -0x4000 <= other.0.x - min.x < 0x4000,
        -0x4000 <= other.0.y - min.y < 0x4000,
        -0x4000 <= other.0.z - min.z < 0x4000,
    ensures
        min.x + a.local_pos@[0] == cell.0.x,
        min.y + a.local_pos@[1] == cell.0.y,
        min.z + a.local_pos@[2] == cell.0.z,
        a.local_pos@[0] - b.local_pos@[0] == cell.0.x - other.0.x,
        a.local_pos@[1] - b.local_pos@[1] == cell.0.y - other.0.y,
        a.local_pos@[2] - b.local_pos@[2] == cell.0.z - other.0.z,
        a.cell == cell.1,
        a.mass == cell.1.occupancy,
        a.material == cell.1.primary,
{
}

/// The bounds of a body on an axis are the only ones: none of its samples lies beyond them, and
/// they cannot be drawn closer.
pub proof fn law_bounds_are_the_closest(
    samples: Seq<ObjectSample>,
    low: i16,
    high: i16,
    low2: i16,
    high2: i16,
    axis: int,
)
    requires
        bounds_axis(samples, low, high, axis),
        forall|i: int|
            0 <= i < samples.len() ==> low2 <= (#[trigger] samples[i]).local_pos@[axis] <= high2,
    ensures
        low2 <= low <= high <= high2,
        bounds_axis(samples, low2, high2, axis) ==> low2 == low && high2 == high,
{
}

} // verus!
