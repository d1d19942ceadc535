//! Block identifiers, the material table, and the cell that a world voxel holds.
use vstd::prelude::*;

verus! {

/// A block kind. Zero is air; it is neither drawn nor collided with.
#[derive(Copy, Clone, PartialEq, Eq, Hash, Debug, Structural)]
pub struct BlockID(pub u16);

/// Materials share the numbering of blocks.
pub type MaterialID = BlockID;

/// How a material is drawn.
#[derive(Copy, Clone, PartialEq, Eq, Hash, Debug, Structural)]
pub enum VisualClass {
    HardBlocky,
    SmoothGranular,
    Fluid,
    Foliage,
}

/// How a material is simulated.
#[derive(Copy, Clone, PartialEq, Eq, Hash, Debug, Structural)]
pub enum MechanicsClass {
    StaticSolid,
    Granular,
    RigidBreakable,
    Fluid,
    Decorative,
}

/// What a material does when its support is gone.
#[derive(Copy, Clone, PartialEq, Eq, Hash, Debug, Structural)]
pub enum StabilityPolicy {
    NoPhysics,
    FloatingOnly,
    ImmediateRelaxation,
    FutureFluid,
}

/// Shape of the region that placing a material fills.
#[derive(Copy, Clone, PartialEq, Eq, Hash, Debug, Structural)]
pub enum PlacementKernel {
    NoKernel,
    SingleCell,
    GranularLocal,
}

/// Shape of the region that breaking a material clears.
#[derive(Copy, Clone, PartialEq, Eq, Hash, Debug, Structural)]
pub enum BreakKernel {
    NoKernel,
    SingleCell,
    GranularLocal,
}

/// A second material mixed into a cell.
#[derive(Copy, Clone, PartialEq, Eq, Hash, Debug, Structural)]
pub struct MixSlot {
    pub material: MaterialID,
    pub occupancy: u8,
}

/// Flag bits of one cell.
#[derive(Copy, Clone, PartialEq, Eq, Hash, Debug, Structural)]
pub struct CellFlags(pub u8);

/// The content of one voxel of the material field.
#[derive(Copy, Clone, PartialEq, Eq, Hash, Debug, Structural)]
pub struct MaterialCell {
    pub occupancy: u8,
    pub primary: MaterialID,
    pub secondary: Option<MixSlot>,
    pub flags: CellFlags,
}

/// Static properties of a material.
///
/// Physical quantities are whole numbers: hardness in thousandths, cohesion, restitution and
/// friction in hundredths, the angle of repose in degrees, strengths and density in the units
/// of their names. `None` stands for an unbounded quantity.
#[derive(Copy, Clone, PartialEq, Eq, Debug)]
pub struct BlockProperties {
    pub solid: bool,
    pub transparent: bool,
    pub emits_light: bool,
    pub texture_index: u8,
    pub display_name: &'static str,
    pub visual_class: VisualClass,
    pub mechanics: MechanicsClass,
    pub placement_kernel: PlacementKernel,
    pub break_kernel: BreakKernel,
    pub placement_unit_mass: u16,
    pub hardness_milli: Option<u32>,
    pub appears_in_hotbar: bool,
    pub breakable: bool,
    pub angle_of_repose_deg: u32,
    pub cohesion_percent: u32,
    pub compressive_strength: Option<u32>,
    pub shear_strength: Option<u32>,
    pub density_kg_m3: u32,
    pub restitution_percent: u32,
    pub friction_percent: u32,
    pub stability: StabilityPolicy,
}

/// The material table seen as an object.
#[derive(Copy, Clone, Debug)]
pub struct MaterialRegistry;

/// Row of the material table that describes `id`: its own, or that of air where it has none.
pub open spec fn material_row(id: BlockID) -> u16 {
    if id.0 <= 10 {
        id.0
    } else {
        0
    }
}

/// Rows of the loose materials: grass, dirt and sand.
pub open spec fn is_granular_row(row: u16) -> bool {
    row == 2 || row == 3 || row == 6
}

/// Rows that a player can neither place nor break: air and bedrock.
pub open spec fn is_untouchable_row(row: u16) -> bool {
    row == 0 || row == 10
}

/// Whether a block stops a player: every known block but air and water.
pub open spec fn is_solid_block(id: BlockID) -> bool {
    1 <= id.0 <= 10 && id.0 != 4
}

pub open spec fn visual_class_of(row: u16) -> VisualClass {
    if is_granular_row(row) {
        VisualClass::SmoothGranular
    } else if row == 4 {
        VisualClass::Fluid
    } else if row == 8 {
        VisualClass::Foliage
    } else {
        VisualClass::HardBlocky
    }
}

pub open spec fn mechanics_of(row: u16) -> MechanicsClass {
    if is_granular_row(row) {
        MechanicsClass::Granular
    } else if row == 4 {
        MechanicsClass::Fluid
    } else if row == 0 || row == 8 {
        MechanicsClass::Decorative
    } else {
        MechanicsClass::StaticSolid
    }
}

pub open spec fn stability_of(row: u16) -> StabilityPolicy {
    if is_granular_row(row) {
        StabilityPolicy::ImmediateRelaxation
    } else if row == 0 || row == 4 || row == 8 || row == 10 {
        StabilityPolicy::NoPhysics
    } else {
        StabilityPolicy::FloatingOnly
    }
}

pub open spec fn placement_kernel_of(row: u16) -> PlacementKernel {
    if is_untouchable_row(row) {
        PlacementKernel::NoKernel
    } else if is_granular_row(row) {
        PlacementKernel::GranularLocal
    } else {
        PlacementKernel::SingleCell
    }
}

pub open spec fn break_kernel_of(row: u16) -> BreakKernel {
    if is_untouchable_row(row) {
        BreakKernel::NoKernel
    } else if is_granular_row(row) {
        BreakKernel::GranularLocal
    } else {
        BreakKernel::SingleCell
    }
}

/// The name under which a material is listed.
pub open spec fn display_name_of(row: u16) -> Seq<char> {
    match row {
        1 => "石头"@,
        2 => "草"@,
        3 => "泥土"@,
        4 => "水"@,
        5 => "玻璃"@,
        6 => "沙子"@,
        7 => "木头"@,
        8 => "树叶"@,
        9 => "石砖"@,
        10 => "基岩"@,
        _ => "空气"@,
    }
}

/// Physical quantities of a row: hardness, angle of repose, cohesion, compressive strength,
/// shear strength, density, restitution, friction.
pub open spec fn quantities_of(row: u16) -> (
    Option<u32>,
    u32,
    u32,
    Option<u32>,
    Option<u32>,
    u32,
    u32,
    u32,
) {
    match row {
        1 => (Some(1500), 90, 95, Some(8000), Some(4000), 2600, 15, 85),
        2 => (Some(600), 42, 45, Some(900), Some(450), 1400, 5, 90),
        3 => (Some(500), 40, 35, Some(800), Some(350), 1500, 4, 88),
        4 => (Some(0), 0, 0, Some(0), Some(0), 1000, 0, 0),
        5 => (Some(900), 90, 85, Some(2000), Some(1200), 2500, 5, 55),
        6 => (Some(400), 34, 5, Some(500), Some(120), 1600, 2, 80),
        7 => (Some(1000), 90, 80, Some(3000), Some(1500), 700, 20, 70),
        8 => (Some(200), 90, 15, Some(100), Some(60), 250, 10, 60),
        9 => (Some(1700), 90, 98, Some(9000), Some(4500), 2500, 12, 85),
        10 => (None, 90, 100, None, None, 3000, 0, 100),
        _ => (Some(0), 0, 0, Some(0), Some(0), 0, 0, 0),
    }
}

/// What the material table says of `id`.
pub open spec fn describes(p: BlockProperties, id: BlockID) -> bool {
    let row = material_row(id);
    &&& p.solid == is_solid_block(id)
    &&& p.transparent == (row == 0 || row == 4 || row == 5)
    &&& !p.emits_light
    &&& p.texture_index == row
    &&& p.display_name@ == display_name_of(row)
    &&& p.visual_class == visual_class_of(row)
    &&& p.mechanics == mechanics_of(row)
    &&& p.placement_kernel == placement_kernel_of(row)
    &&& p.break_kernel == break_kernel_of(row)
    &&& p.placement_unit_mass == (if is_untouchable_row(row) {
        0u16
    } else {
        255u16
    })
    &&& p.appears_in_hotbar == !is_untouchable_row(row)
    &&& p.breakable == !is_untouchable_row(row)
    &&& p.stability == stability_of(row)
    &&& quantities_of(row) == (
        p.hardness_milli,
        p.angle_of_repose_deg,
        p.cohesion_percent,
        p.compressive_strength,
        p.shear_strength,
        p.density_kg_m3,
        p.restitution_percent,
        p.friction_percent,
    )
}

impl Default for BlockID {
    fn default() -> (r: BlockID)
        ensures
            r == BlockID(0),
    {
        BlockID(0)
    }
}

impl BlockID {
    pub const AIR: u16 = 0;

    pub const STONE: u16 = 1;

    pub const GRASS: u16 = 2;

    pub const DIRT: u16 = 3;

    pub const WATER: u16 = 4;

    pub const GLASS: u16 = 5;

    pub const SAND: u16 = 6;

    pub const WOOD: u16 = 7;

    pub const LEAVES: u16 = 8;

    pub const STONE_BRICKS: u16 = 9;

    pub const BEDROCK: u16 = 10;

    /// Whether the block is anything but air. Water is; what stops a player is in the table.
    pub fn is_solid(self) -> (r: bool)
        ensures
            r == (self.0 != 0),
    {
        self.0 != 0
    }
}

impl Default for CellFlags {
    fn default() -> (r: CellFlags)
        ensures
            r == CellFlags(0),
    {
        CellFlags(0)
    }
}

impl CellFlags {
    pub const GENERATED: u8 = 1;

    pub const DIRTY: u8 = 2;

    pub const STABLE_HINT: u8 = 4;

    /// No flag set.
    pub fn empty() -> (r: CellFlags)
        ensures
            r == CellFlags(0),
    {
        CellFlags(0)
    }

    /// Whether any bit of `flag` is set.
    pub fn contains(self, flag: u8) -> (r: bool)
        ensures
            r == (self.0 & flag != 0),
    {
        self.0 & flag != 0
    }
}

/// The cell of open air.
pub open spec fn empty_cell() -> MaterialCell {
    MaterialCell { occupancy: 0, primary: BlockID(0), secondary: None, flags: CellFlags(0) }
}

/// A cell filled with one material.
pub open spec fn full_cell(material: MaterialID) -> MaterialCell {
    MaterialCell { occupancy: 255, primary: material, secondary: None, flags: CellFlags(0) }
}

/// The cell that stands for a whole block.
pub open spec fn cell_of_block(block: BlockID) -> MaterialCell {
    if block.0 == 0 {
        empty_cell()
    } else {
        full_cell(block)
    }
}

/// The block that a cell looks like.
pub open spec fn block_of_cell(cell: MaterialCell) -> BlockID {
    if cell.holds_nothing() {
        BlockID(0)
    } else {
        cell.primary
    }
}

impl Default for MaterialCell {
    fn default() -> (r: MaterialCell)
        ensures
            r == empty_cell(),
    {
        MaterialCell::empty()
    }
}

impl MaterialCell {
    /// A cell without mass, or of air, holds nothing.
    pub open spec fn holds_nothing(self) -> bool {
        self.occupancy == 0 || self.primary.0 == 0
    }

    /// The cell of open air.
    pub fn empty() -> (r: MaterialCell)
        ensures
            r == empty_cell(),
    {
        MaterialCell {
            occupancy: 0,
            primary: BlockID(BlockID::AIR),
            secondary: None,
            flags: CellFlags::empty(),
        }
    }

    /// A cell filled with `material`.
    pub fn full(material: MaterialID) -> (r: MaterialCell)
        ensures
            r == full_cell(material),
    {
        MaterialCell {
            occupancy: u8::MAX,
            primary: material,
            secondary: None,
            flags: CellFlags::empty(),
        }
    }

    pub fn is_empty(self) -> (r: bool)
        ensures
            r == self.holds_nothing(),
    {
        self.occupancy == 0 || self.primary.0 == 0
    }

    pub fn from_block_id(block: BlockID) -> (r: MaterialCell)
        ensures
            r == cell_of_block(block),
    {
        if block.0 == 0 {
            MaterialCell::empty()
        } else {
            MaterialCell::full(block)
        }
    }

    pub fn to_block_id(self) -> (r: BlockID)
        ensures
            r == block_of_cell(self),
    {
        if self.is_empty() {
            BlockID(BlockID::AIR)
        } else {
            self.primary
        }
    }
}

impl MaterialRegistry {
    /// The table entry of `id`.
    pub fn properties(&self, id: MaterialID) -> (r: BlockProperties)
        ensures
            describes(r, id),
    {
        properties(id)
    }
}

/// Builds a table entry from what tells the materials apart.
fn entry(
    row: u8,
    display_name: &'static str,
    quantities: (Option<u32>, u32, u32, Option<u32>, Option<u32>, u32, u32, u32),
) -> (r: BlockProperties)
    requires
        row <= 10,
        display_name@ == display_name_of(row as u16),
        quantities == quantities_of(row as u16),
    ensures
        describes(r, BlockID(row as u16)),
{
    let granular = row == 2 || row == 3 || row == 6;
    let untouchable = row == 0 || row == 10;
    BlockProperties {
        solid: row != 0 && row != 4,
        transparent: row == 0 || row == 4 || row == 5,
        emits_light: false,
        texture_index: row,
        display_name,
        visual_class: if granular {
            VisualClass::SmoothGranular
        } else if row == 4 {
            VisualClass::Fluid
        } else if row == 8 {
            VisualClass::Foliage
        } else {
            VisualClass::HardBlocky
        },
        mechanics: if granular {
            MechanicsClass::Granular
        } else if row == 4 {
            MechanicsClass::Fluid
        } else if row == 0 || row == 8 {
            MechanicsClass::Decorative
        } else {
            MechanicsClass::StaticSolid
        },
        placement_kernel: if untouchable {
            PlacementKernel::NoKernel
        } else if granular {
            PlacementKernel::GranularLocal
        } else {
            PlacementKernel::SingleCell
        },
        break_kernel: if untouchable {
            BreakKernel::NoKernel
        } else if granular {
            BreakKernel::GranularLocal
        } else {
            BreakKernel::SingleCell
        },
        placement_unit_mass: if untouchable {
            0
        } else {
            255
        },
        hardness_milli: quantities.0,
        appears_in_hotbar: !untouchable,
        breakable: !untouchable,
        angle_of_repose_deg: quantities.1,
        cohesion_percent: quantities.2,
        compressive_strength: quantities.3,
        shear_strength: quantities.4,
        density_kg_m3: quantities.5,
        restitution_percent: quantities.6,
        friction_percent: quantities.7,
        stability: if granular {
            StabilityPolicy::ImmediateRelaxation
        } else if row == 0 || row == 4 || row == 8 || row == 10 {
            StabilityPolicy::NoPhysics
        } else {
            StabilityPolicy::FloatingOnly
        },
    }
}

/// The table entry of `id`; an unknown block has that of air.
pub fn properties(id: BlockID) -> (r: BlockProperties)
    ensures
        describes(r, id),
{
    match id.0 {
        1 => entry(1, "石头", (Some(1500), 90, 95, Some(8000), Some(4000), 2600, 15, 85)),
        2 => entry(2, "草", (Some(600), 42, 45, Some(900), Some(450), 1400, 5, 90)),
        3 => entry(3, "泥土", (Some(500), 40, 35, Some(800), Some(350), 1500, 4, 88)),
        4 => entry(4, "水", (Some(0), 0, 0, Some(0), Some(0), 1000, 0, 0)),
        5 => entry(5, "玻璃", (Some(900), 90, 85, Some(2000), Some(1200), 2500, 5, 55)),
        6 => entry(6, "沙子", (Some(400), 34, 5, Some(500), Some(120), 1600, 2, 80)),
        7 => entry(7, "木头", (Some(1000), 90, 80, Some(3000), Some(1500), 700, 20, 70)),
        8 => entry(8, "树叶", (Some(200), 90, 15, Some(100), Some(60), 250, 10, 60)),
        9 => entry(9, "石砖", (Some(1700), 90, 98, Some(9000), Some(4500), 2500, 12, 85)),
        10 => entry(10, "基岩", (None, 90, 100, None, None, 3000, 0, 100)),
        _ => entry(0, "空气", (Some(0), 0, 0, Some(0), Some(0), 0, 0, 0)),
    }
}

/// A block put into a cell is read back unchanged.
pub proof fn law_block_cell_round_trip(block: BlockID)
    ensures
        block_of_cell(cell_of_block(block)) == block,
{
}

/// Only the cell of air stands for an empty cell: a block turned into a cell is empty exactly
/// when the block is air.
pub proof fn law_only_air_is_an_empty_cell(block: BlockID)
    ensures
        cell_of_block(block).holds_nothing() <==> block == BlockID(0),
{
}

/// A cell shows its main material, if it holds any of it, and otherwise air.
pub proof fn law_a_cell_shows_its_main_material(cell: MaterialCell)
    ensures
        block_of_cell(cell) == cell.primary || block_of_cell(cell) == BlockID(BlockID::AIR),
        block_of_cell(cell) != BlockID(BlockID::AIR) <==> cell.occupancy > 0 && cell.primary
            != BlockID(BlockID::AIR),
        cell.holds_nothing() <==> block_of_cell(cell) == BlockID(BlockID::AIR),
{
}

/// A block fills its cell with nothing but itself; air leaves it empty.
pub proof fn law_a_block_fills_its_cell(block: BlockID)
    ensures
        block != BlockID(BlockID::AIR) ==> cell_of_block(block).occupancy == u8::MAX
            && cell_of_block(block).primary == block,
        block == BlockID(BlockID::AIR) ==> cell_of_block(block).occupancy == 0,
        cell_of_block(block).secondary is None,
        cell_of_block(block).flags == CellFlags(0),
{
}

/// What the table of materials says of one block agrees with itself: exactly grass, dirt and sand
/// are loose, in the way they look, fall, are placed and broken; water is the only fluid and leaves
/// the only foliage; light goes through air, water and glass; every block but air and water stops a
/// player, and every block but air and bedrock can be had and broken. A block that is not in the
/// table is taken for air.
pub proof fn law_materials_are_what_they_are_called(p: BlockProperties, id: BlockID)
    requires
        describes(p, id),
    ensures
        ({
            let loose = id.0 == BlockID::GRASS || id.0 == BlockID::DIRT || id.0 == BlockID::SAND;
            let known = id.0 <= BlockID::BEDROCK;
            &&& p.visual_class == VisualClass::SmoothGranular <==> loose
            &&& p.mechanics == MechanicsClass::Granular <==> loose
            &&& p.stability == StabilityPolicy::ImmediateRelaxation <==> loose
            &&& p.placement_kernel == PlacementKernel::GranularLocal <==> loose
            &&& p.break_kernel == BreakKernel::GranularLocal <==> loose
            &&& p.visual_class == VisualClass::Fluid <==> id.0 == BlockID::WATER
            &&& p.mechanics == MechanicsClass::Fluid <==> id.0 == BlockID::WATER
            &&& p.visual_class == VisualClass::Foliage <==> id.0 == BlockID::LEAVES
            &&& p.transparent <==> id.0 == BlockID::AIR || id.0 == BlockID::WATER || id.0
                == BlockID::GLASS || !known
            &&& p.solid <==> known && id.0 != BlockID::AIR && id.0 != BlockID::WATER
            &&& p.breakable <==> known && id.0 != BlockID::AIR && id.0 != BlockID::BEDROCK
            &&& p.appears_in_hotbar == p.breakable
            &&& p.placement_kernel == PlacementKernel::NoKernel <==> !p.breakable
            &&& p.break_kernel == BreakKernel::NoKernel <==> !p.breakable
            &&& p.placement_unit_mass == (if p.breakable {
                u8::MAX as int
            } else {
                0
            })
            &&& p.stability == StabilityPolicy::FloatingOnly <==> p.breakable && p.solid && !loose
                && id.0 != BlockID::LEAVES
            &&& p.hardness_milli is None <==> id.0 == BlockID::BEDROCK
            &&& !known ==> describes(p, BlockID(BlockID::AIR))
        }),
{
}

/// The quantities of a material keep within their bounds: shares are percentages, a material
/// resists shearing no better than pressure, only loose ones rest at less than a right angle among
/// the solid ones, and everything but air weighs something.
pub proof fn law_material_quantities_are_plausible(p: BlockProperties, id: BlockID)
    requires
        describes(p, id),
    ensures
        p.cohesion_percent <= 100,
        p.restitution_percent <= 100,
        p.friction_percent <= 100,
        p.compressive_strength is None <==> p.shear_strength is None,
        p.compressive_strength is Some ==> p.shear_strength->0 <= p.compressive_strength->0,
        p.solid ==> (p.angle_of_repose_deg == 90 <==> p.visual_class
            != VisualClass::SmoothGranular),
        p.solid ==> p.angle_of_repose_deg > 0,
        p.density_kg_m3 > 0 <==> 0 < id.0 <= BlockID::BEDROCK,
        id.0 == BlockID::WATER ==> p.density_kg_m3 == 1000,
        p.solid && p.breakable ==> p.hardness_milli->0 > 0,
        p.breakable && !p.solid ==> p.hardness_milli->0 == 0,
{
}

} // verus!
