//! Surface queries on columns of loose material.
//!
//! Rendering, ray casting and collision all read heights through these scans, so that a heap of
//! sand looks, feels and is hit alike. A world is given as a lookup from block coordinates to
//! blocks.
use vstd::prelude::*;

use crate::block::{properties, BlockID, VisualClass};
use crate::chunk::CHUNK_Y;
use crate::block;

verus! {

/// A loose cell that a ray may hit.
#[derive(Copy, Clone, Debug, PartialEq, Eq, Structural)]
pub struct SmoothCellRef {
    pub wx: i32,
    pub wy: i32,
    pub wz: i32,
    pub block: BlockID,
}

/// The exposed surface of a column of loose material.
#[derive(Copy, Clone, Debug, PartialEq, Eq, Structural)]
pub struct SmoothColumnSurface {
    /// Height of the upper face of the surface cell.
    pub top_y: i32,
    /// Height of the surface cell.
    pub cell_y: i32,
    pub block: BlockID,
}

/// Whether a lookup can be asked for a block, and always answers the same.
pub open spec fn answers<F: Fn(i32, i32, i32) -> BlockID>(
    get_block: F,
    x: i32,
    y: i32,
    z: i32,
) -> bool {
    &&& call_requires(get_block, (x, y, z))
    &&& forall|a: BlockID, b: BlockID|
        #[trigger] call_ensures(get_block, (x, y, z), a) && #[trigger] call_ensures(
            get_block,
            (x, y, z),
            b,
        ) ==> a == b
}

/// Whether a lookup answers in a column at the heights from `low` up to below `high`. A scan that
/// requires this asks nowhere else.
pub open spec fn answers_between<F: Fn(i32, i32, i32) -> BlockID>(
    get_block: F,
    wx: i32,
    wz: i32,
    low: int,
    high: int,
) -> bool {
    forall|y: i32| low <= y < high ==> #[trigger] answers(get_block, wx, y, wz)
}

/// The block that a lookup answers with.
pub open spec fn block_in<F: Fn(i32, i32, i32) -> BlockID>(
    get_block: F,
    x: i32,
    y: i32,
    z: i32,
) -> BlockID {
    choose|b: BlockID| call_ensures(get_block, (x, y, z), b)
}

/// Whether a lookup answers at the heights from `low` up to below `high` in all columns that lie,
/// seen from a corner of the grid, from `from` up to below `to` along both axes.
pub open spec fn answer_around<F: Fn(i32, i32, i32) -> BlockID>(
    get_block: F,
    corner_wx: i32,
    corner_wz: i32,
    from: int,
    to: int,
    low: int,
    high: int,
) -> bool {
    forall|wx: i32, wz: i32|
        corner_wx + from <= wx < corner_wx + to && corner_wz + from <= wz < corner_wz + to
            ==> #[trigger] answers_between(get_block, wx, wz, low, high)
}

/// Loose material: grass, dirt and sand.
pub open spec fn is_loose(block: BlockID) -> bool {
    block::is_granular_row(block::material_row(block))
}

/// Blocks that a surface shows through: air, water, glass and unknown blocks.
pub open spec fn is_open(block: BlockID) -> bool {
    block::material_row(block) == 0 || block::material_row(block) == 4 || block::material_row(block) == 5
}

/// Opaque blocks that are not loose.
pub open spec fn is_hard(block: BlockID) -> bool {
    !is_open(block) && !is_loose(block)
}

/// Whether height `y` of a column holds a loose cell with an open one above it.
pub open spec fn is_exposed<F: Fn(i32, i32, i32) -> BlockID>(
    get_block: F,
    wx: i32,
    y: int,
    wz: i32,
) -> bool {
    is_loose(block_in(get_block, wx, y as i32, wz)) && is_open(
        block_in(get_block, wx, (y + 1) as i32, wz),
    )
}

/// A height brought into the world.
pub open spec fn world_height(y: i32) -> int {
    if y < 0 {
        0
    } else if y > 255 {
        255
    } else {
        y as int
    }
}

/// The highest exposed cell of a column below a height.
pub open spec fn exposed_below<F: Fn(i32, i32, i32) -> BlockID>(
    get_block: F,
    wx: i32,
    wz: i32,
    below: int,
) -> Option<int>
    decreases below,
{
    if below <= 0 {
        None
    } else if is_exposed(get_block, wx, below - 1, wz) {
        Some(below - 1)
    } else {
        exposed_below(get_block, wx, wz, below - 1)
    }
}

/// The exposed surface of a column.
pub open spec fn surface_of<F: Fn(i32, i32, i32) -> BlockID>(get_block: F, wx: i32, wz: i32) -> Option<
    SmoothColumnSurface,
> {
    match exposed_below(get_block, wx, wz, CHUNK_Y as int) {
        Some(y) => Some(
            SmoothColumnSurface {
                top_y: (y + 1) as i32,
                cell_y: y as i32,
                block: block_in(get_block, wx, y as i32, wz),
            },
        ),
        None => None,
    }
}

/// The lowest hard block of a column from a height upwards.
pub open spec fn hard_from<F: Fn(i32, i32, i32) -> BlockID>(
    get_block: F,
    wx: i32,
    wz: i32,
    from: int,
) -> Option<i32>
    decreases CHUNK_Y - from,
{
    if from >= CHUNK_Y {
        None
    } else if is_hard(block_in(get_block, wx, from as i32, wz)) {
        Some(from as i32)
    } else {
        hard_from(get_block, wx, wz, from + 1)
    }
}

/// A column near a corner of the grid, as it counts for the height of the surface there.
#[derive(Copy, Clone, Debug, PartialEq, Eq, Structural)]
pub struct CornerSample {
    /// Twice the distance of the middle of the column from the corner, along each axis.
    pub dx2: i32,
    pub dz2: i32,
    pub top_y: i32,
    /// Whether the surface is of another material than the one preferred.
    pub mixed: bool,
}

/// How many columns to each side of a corner count.
pub const CORNER_RADIUS: i32 = 2;

/// What a column counts for at a corner.
pub open spec fn sample_of(
    found: Option<SmoothColumnSurface>,
    dx: int,
    dz: int,
    prefer: Option<BlockID>,
) -> Option<CornerSample> {
    match found {
        Some(s) => Some(
            CornerSample {
                dx2: (2 * dx + 1) as i32,
                dz2: (2 * dz + 1) as i32,
                top_y: s.top_y,
                mixed: prefer is Some && prefer != Some(s.block),
            },
        ),
        None => None,
    }
}

/// What the first columns around a corner count for, line by line.
pub open spec fn samples_around<F: Fn(i32, i32, i32) -> BlockID>(
    get_block: F,
    corner_wx: i32,
    corner_wz: i32,
    prefer: Option<BlockID>,
    n: int,
) -> Seq<CornerSample>
    decreases n,
{
    if n <= 0 {
        Seq::empty()
    } else {
        let rest = samples_around(get_block, corner_wx, corner_wz, prefer, n - 1);
        let dx = (n - 1) / 4 - 2;
        let dz = (n - 1) % 4 - 2;
        let found = surface_of(get_block, (corner_wx + dx) as i32, (corner_wz + dz) as i32);
        match sample_of(found, dx, dz, prefer) {
            Some(sample) => rest.push(sample),
            None => rest,
        }
    }
}

/// The smaller of two heights, either of which may be missing.
pub open spec fn lower_of(a: Option<i32>, b: Option<i32>) -> Option<i32> {
    match (a, b) {
        (Some(x), Some(y)) => if y < x {
            Some(y)
        } else {
            Some(x)
        },
        (Some(x), None) => Some(x),
        (None, y) => y,
    }
}

/// The lowest hard block above a height in the four columns that touch a corner.
pub open spec fn ceiling_around<F: Fn(i32, i32, i32) -> BlockID>(
    get_block: F,
    corner_wx: i32,
    corner_wz: i32,
    min_y: i32,
) -> Option<i32> {
    let from = world_height(min_y);
    let a = hard_from(get_block, corner_wx, corner_wz, from);
    let b = hard_from(get_block, (corner_wx - 1) as i32, corner_wz, from);
    let c = hard_from(get_block, corner_wx, (corner_wz - 1) as i32, from);
    let d = hard_from(get_block, (corner_wx - 1) as i32, (corner_wz - 1) as i32, from);
    lower_of(lower_of(lower_of(a, b), c), d)
}

pub fn is_smooth_granular(block: BlockID) -> (r: bool)
    ensures
        r == is_loose(block),
{
    block != BlockID(BlockID::AIR) && !properties(block).transparent && properties(
        block,
    ).visual_class == VisualClass::SmoothGranular
}

pub fn is_open_for_surface(block: BlockID) -> (r: bool)
    ensures
        r == is_open(block),
{
    block == BlockID(BlockID::AIR) || properties(block).transparent
}

fn is_hard_opaque(block: BlockID) -> (r: bool)
    ensures
        r == is_hard(block),
{
    block != BlockID(BlockID::AIR) && !properties(block).transparent && !is_smooth_granular(block)
}

/// The highest exposed loose cell of the column at (`wx`, `wz`).
pub fn find_smooth_column_surface<F: Fn(i32, i32, i32) -> BlockID>(
    get_block: &F,
    wx: i32,
    wz: i32,
) -> (r: Option<SmoothColumnSurface>)
    requires
        answers_between(*get_block, wx, wz, 0, CHUNK_Y + 1),
    ensures
        r == surface_of(*get_block, wx, wz),
        match r {
            Some(s) => {
                &&& 0 <= s.cell_y < CHUNK_Y
                &&& s.top_y == s.cell_y + 1
                &&& s.block == block_in(*get_block, wx, s.cell_y, wz)
                &&& is_exposed(*get_block, wx, s.cell_y as int, wz)
                &&& forall|y: int|
                    s.cell_y < y < CHUNK_Y ==> !#[trigger] is_exposed(*get_block, wx, y, wz)
            },
            None => forall|y: int|
                0 <= y < CHUNK_Y ==> !#[trigger] is_exposed(*get_block, wx, y, wz),
        },
{
    let mut next: i32 = CHUNK_Y as i32;
    while next > 0
        invariant
            0 <= next <= CHUNK_Y,
            answers_between(*get_block, wx, wz, 0, CHUNK_Y + 1),
            exposed_below(*get_block, wx, wz, CHUNK_Y as int) == exposed_below(
                *get_block,
                wx,
                wz,
                next as int,
            ),
            forall|y: int| next <= y < CHUNK_Y ==> !#[trigger] is_exposed(*get_block, wx, y, wz),
        decreases next,
    {
        let y: i32 = next - 1;
        assert(answers(*get_block, wx, y, wz));
        let here = get_block(wx, y, wz);
        assert(here == block_in(*get_block, wx, y, wz));
        if is_smooth_granular(here) {
            assert(answers(*get_block, wx, (y + 1) as i32, wz));
            let above = get_block(wx, y + 1, wz);
            assert(above == block_in(*get_block, wx, (y + 1) as i32, wz));
            if is_open_for_surface(above) {
                return Some(SmoothColumnSurface { top_y: y + 1, cell_y: y, block: here });
            }
        }
        next = y;
    }
    None
}

/// Bottom of the unbroken stack of loose cells that ends at `surface_y`.
pub fn smooth_stack_bottom<F: Fn(i32, i32, i32) -> BlockID>(
    get_block: &F,
    wx: i32,
    surface_y: i32,
    wz: i32,
) -> (r: i32)
    requires
        answers_between(*get_block, wx, wz, 0, surface_y as int),
    ensures
        r <= surface_y,
        r < surface_y ==> r >= 0,
        forall|y: int| r <= y < surface_y ==> is_loose(#[trigger] block_in(*get_block, wx, y as i32, wz)),
        r > 0 ==> !is_loose(block_in(*get_block, wx, (r - 1) as i32, wz)),
{
    let mut y: i32 = surface_y;
    while y > 0
        invariant
            y <= surface_y,
            y < surface_y ==> y >= 0,
            answers_between(*get_block, wx, wz, 0, surface_y as int),
            forall|h: int|
                y <= h < surface_y ==> is_loose(#[trigger] block_in(*get_block, wx, h as i32, wz)),
        decreases y,
    {
        assert(answers(*get_block, wx, (y - 1) as i32, wz));
        let below = get_block(wx, y - 1, wz);
        assert(below == block_in(*get_block, wx, (y - 1) as i32, wz));
        if !is_smooth_granular(below) {
            return y;
        }
        y -= 1;
    }
    y
}

/// Upper face of the highest hard block of a column at or below `max_y`.
pub fn solid_column_top_y<F: Fn(i32, i32, i32) -> BlockID>(
    get_block: &F,
    wx: i32,
    wz: i32,
    max_y: i32,
) -> (r: Option<i32>)
    requires
        answers_between(*get_block, wx, wz, 0, world_height(max_y) + 1),
    ensures
        match r {
            Some(top) => {
                &&& 0 <= top - 1 <= world_height(max_y)
                &&& is_hard(block_in(*get_block, wx, (top - 1) as i32, wz))
                &&& forall|y: int|
                    top <= y <= world_height(max_y) ==> !is_hard(
                        #[trigger] block_in(*get_block, wx, y as i32, wz),
                    )
            },
            None => forall|y: int|
                0 <= y <= world_height(max_y) ==> !is_hard(
                    #[trigger] block_in(*get_block, wx, y as i32, wz),
                ),
        },
{
    let hi: i32 = clamp_height(max_y);
    let mut next: i32 = hi + 1;
    while next > 0
        invariant
            hi == world_height(max_y),
            0 <= next <= hi + 1,
            answers_between(*get_block, wx, wz, 0, world_height(max_y) + 1),
            forall|y: int|
                next <= y <= hi ==> !is_hard(#[trigger] block_in(*get_block, wx, y as i32, wz)),
        decreases next,
    {
        let y: i32 = next - 1;
        assert(answers(*get_block, wx, y, wz));
        let here = get_block(wx, y, wz);
        assert(here == block_in(*get_block, wx, y, wz));
        if is_hard_opaque(here) {
            return Some(next);
        }
        next = y;
    }
    None
}

/// Lower face of the lowest hard block of a column at or above `min_y`.
pub fn column_hard_ceiling<F: Fn(i32, i32, i32) -> BlockID>(
    get_block: &F,
    wx: i32,
    wz: i32,
    min_y: i32,
) -> (r: Option<i32>)
    requires
        answers_between(*get_block, wx, wz, world_height(min_y), CHUNK_Y as int),
    ensures
        r == hard_from(*get_block, wx, wz, world_height(min_y)),
        match r {
            Some(ceiling) => {
                &&& world_height(min_y) <= ceiling < CHUNK_Y
                &&& is_hard(block_in(*get_block, wx, ceiling, wz))
                &&& forall|y: int|
                    world_height(min_y) <= y < ceiling ==> !is_hard(
                        #[trigger] block_in(*get_block, wx, y as i32, wz),
                    )
            },
            None => forall|y: int|
                world_height(min_y) <= y < CHUNK_Y ==> !is_hard(
                    #[trigger] block_in(*get_block, wx, y as i32, wz),
                ),
        },
{
    let start: i32 = clamp_height(min_y);
    let mut y: i32 = start;
    while y < CHUNK_Y as i32
        invariant
            start == world_height(min_y),
            start <= y <= CHUNK_Y,
            answers_between(*get_block, wx, wz, world_height(min_y), CHUNK_Y as int),
            hard_from(*get_block, wx, wz, start as int) == hard_from(
                *get_block,
                wx,
                wz,
                y as int,
            ),
            forall|h: int|
                start <= h < y ==> !is_hard(#[trigger] block_in(*get_block, wx, h as i32, wz)),
        decreases CHUNK_Y - y,
    {
        assert(answers(*get_block, wx, y, wz));
        let here = get_block(wx, y, wz);
        assert(here == block_in(*get_block, wx, y, wz));
        if is_hard_opaque(here) {
            return Some(y);
        }
        y += 1;
    }
    None
}

/// Whether the highest loose cell of a column lies under a hard block.
pub open spec fn is_capped<F: Fn(i32, i32, i32) -> BlockID>(get_block: F, wx: i32, wz: i32) -> bool {
    exists|s: int, h: int|
        0 <= s < h < CHUNK_Y && is_loose(#[trigger] block_in(get_block, wx, s as i32, wz)) && is_hard(
            #[trigger] block_in(get_block, wx, h as i32, wz),
        ) && no_loose_above(get_block, wx, s, wz)
}

/// Whether no cell above height `s` is loose.
pub open spec fn no_loose_above<F: Fn(i32, i32, i32) -> BlockID>(
    get_block: F,
    wx: i32,
    s: int,
    wz: i32,
) -> bool {
    forall|y: int| s < y < CHUNK_Y ==> !is_loose(#[trigger] block_in(get_block, wx, y as i32, wz))
}

/// Whether hard blocks cover the loose part of a column; such a column shows no loose surface.
pub fn column_has_hard_over_smooth<F: Fn(i32, i32, i32) -> BlockID>(
    get_block: &F,
    wx: i32,
    wz: i32,
) -> (r: bool)
    requires
        answers_between(*get_block, wx, wz, 0, CHUNK_Y as int),
    ensures
        r == is_capped(*get_block, wx, wz),
{
    let mut seen_hard = false;
    let ghost mut hard_at: int = 0;
    let mut next: i32 = CHUNK_Y as i32;
    while next > 0
        invariant
            0 <= next <= CHUNK_Y,
            answers_between(*get_block, wx, wz, 0, CHUNK_Y as int),
            no_loose_above(*get_block, wx, next - 1, wz),
            seen_hard ==> next <= hard_at < CHUNK_Y && is_hard(
                block_in(*get_block, wx, hard_at as i32, wz),
            ),
            !seen_hard ==> forall|y: int|
                next <= y < CHUNK_Y ==> !is_hard(#[trigger] block_in(*get_block, wx, y as i32, wz)),
        decreases next,
    {
        let y: i32 = next - 1;
        assert(answers(*get_block, wx, y, wz));
        let here = get_block(wx, y, wz);
        assert(here == block_in(*get_block, wx, y, wz));
        if is_hard_opaque(here) {
            seen_hard = true;
            proof {
                hard_at = y as int;
            }
        } else if is_smooth_granular(here) {
            proof {
                if seen_hard {
                    assert(is_loose(block_in(*get_block, wx, (y as int) as i32, wz)));
                    assert(is_capped(*get_block, wx, wz));
                } else {
                    assert forall|s: int, h: int|
                        0 <= s < h < CHUNK_Y && is_loose(
                            #[trigger] block_in(*get_block, wx, s as i32, wz),
                        ) && no_loose_above(*get_block, wx, s, wz) implies !is_hard(
                        #[trigger] block_in(*get_block, wx, h as i32, wz),
                    ) by {
                        if s < y {
                            assert(!is_loose(block_in(*get_block, wx, (y as int) as i32, wz)));
                        }
                    }
                }
            }
            return seen_hard;
        }
        next = y;
    }
    false
}

/// What the columns around a corner of the grid count for, line by line.
pub fn corner_samples<F: Fn(i32, i32, i32) -> BlockID>(
    get_block: &F,
    corner_wx: i32,
    corner_wz: i32,
    prefer: Option<BlockID>,
) -> (out: Vec<CornerSample>)
    requires
        answer_around(*get_block, corner_wx, corner_wz, -2, 2, 0, CHUNK_Y + 1),
        i32::MIN + 2 <= corner_wx <= i32::MAX - 2,
        i32::MIN + 2 <= corner_wz <= i32::MAX - 2,
    ensures
        out@ == samples_around(*get_block, corner_wx, corner_wz, prefer, 16),
{
    let mut out: Vec<CornerSample> = Vec::new();
    let mut n: i32 = 0;
    while n < 16
        invariant
            0 <= n <= 16,
            answer_around(*get_block, corner_wx, corner_wz, -2, 2, 0, CHUNK_Y + 1),
            i32::MIN + 2 <= corner_wx <= i32::MAX - 2,
            i32::MIN + 2 <= corner_wz <= i32::MAX - 2,
            out@ == samples_around(*get_block, corner_wx, corner_wz, prefer, n as int),
        decreases 16 - n,
    {
        let dx: i32 = n / 4 - CORNER_RADIUS;
        let dz: i32 = n % 4 - CORNER_RADIUS;
        assert(answers_between(
            *get_block,
            (corner_wx + dx) as i32,
            (corner_wz + dz) as i32,
            0,
            CHUNK_Y + 1,
        ));
        if let Some(s) = find_smooth_column_surface(get_block, corner_wx + dx, corner_wz + dz) {
            let mixed = match prefer {
                Some(block) => s.block != block,
                None => false,
            };
            out.push(
                CornerSample { dx2: 2 * dx + 1, dz2: 2 * dz + 1, top_y: s.top_y, mixed },
            );
        }
        n = n + 1;
    }
    out
}

fn lower(a: Option<i32>, b: Option<i32>) -> (r: Option<i32>)
    ensures
        r == lower_of(a, b),
{
    match (a, b) {
        (Some(x), Some(y)) => if y < x {
            Some(y)
        } else {
            Some(x)
        },
        (Some(x), None) => Some(x),
        (None, y) => y,
    }
}

/// The lowest hard block above a height in the four columns that touch a corner.
pub fn corner_ceiling<F: Fn(i32, i32, i32) -> BlockID>(
    get_block: &F,
    corner_wx: i32,
    corner_wz: i32,
    min_y: i32,
) -> (r: Option<i32>)
    requires
        answer_around(*get_block, corner_wx, corner_wz, -1, 1, world_height(min_y), CHUNK_Y as int),
        i32::MIN < corner_wx,
        i32::MIN < corner_wz,
    ensures
        r == ceiling_around(*get_block, corner_wx, corner_wz, min_y),
{
    let a = column_hard_ceiling(get_block, corner_wx, corner_wz, min_y);
    let b = column_hard_ceiling(get_block, corner_wx - 1, corner_wz, min_y);
    let c = column_hard_ceiling(get_block, corner_wx, corner_wz - 1, min_y);
    let d = column_hard_ceiling(get_block, corner_wx - 1, corner_wz - 1, min_y);
    lower(lower(lower(a, b), c), d)
}

fn clamp_height(y: i32) -> (r: i32)
    ensures
        r == world_height(y),
{
    if y < 0 {
        0
    } else if y > CHUNK_Y as i32 - 1 {
        CHUNK_Y as i32 - 1
    } else {
        y
    }
}

/// An exposed cell is covered neither by a hard block nor by a loose one.
pub proof fn law_exposed_cell_is_not_covered<F: Fn(i32, i32, i32) -> BlockID>(
    get_block: F,
    wx: i32,
    y: int,
    wz: i32,
)
    requires
        0 <= y < CHUNK_Y,
        is_exposed(get_block, wx, y, wz),
    ensures
        !is_hard(block_in(get_block, wx, (y + 1) as i32, wz)),
        !is_loose(block_in(get_block, wx, (y + 1) as i32, wz)),
{
}

/// Every block is either loose, open or hard, as the table of materials has it: open is what light
/// goes through, loose what looks smooth, and hard the rest.
pub proof fn law_surfaces_are_loose_open_or_hard(p: block::BlockProperties, b: BlockID)
    requires
        block::describes(p, b),
    ensures
        is_open(b) <==> p.transparent,
        is_loose(b) <==> p.visual_class == VisualClass::SmoothGranular,
        is_hard(b) <==> !p.transparent && p.visual_class != VisualClass::SmoothGranular,
        !(is_open(b) && is_loose(b)),
        is_open(b) || is_loose(b) || is_hard(b),
{
}

proof fn lemma_exposed_below<F: Fn(i32, i32, i32) -> BlockID>(
    get_block: F,
    wx: i32,
    wz: i32,
    below: int,
)
    ensures
        match exposed_below(get_block, wx, wz, below) {
            Some(y) => 0 <= y < below && is_exposed(get_block, wx, y, wz) && forall|h: int|
                y < h < below ==> !#[trigger] is_exposed(get_block, wx, h, wz),
            None => forall|h: int|
                0 <= h < below ==> !#[trigger] is_exposed(get_block, wx, h, wz),
        },
    decreases below,
{
    if below > 0 {
        lemma_exposed_below(get_block, wx, wz, below - 1);
    }
}

/// The surface of a column is its highest loose cell with an open one above it: it is loose, what is
/// above it is open, and no cell above it is such a surface; a column without one has no surface.
pub proof fn law_the_surface_is_the_highest_exposed_cell<F: Fn(i32, i32, i32) -> BlockID>(
    get_block: F,
    wx: i32,
    wz: i32,
    h: int,
)
    requires
        0 <= h < CHUNK_Y,
    ensures
        match surface_of(get_block, wx, wz) {
            Some(s) => {
                &&& 0 <= s.cell_y < CHUNK_Y
                &&& s.top_y == s.cell_y + 1
                &&& s.block == block_in(get_block, wx, s.cell_y, wz)
                &&& is_loose(s.block)
                &&& is_open(block_in(get_block, wx, s.top_y, wz))
                &&& h > s.cell_y && is_loose(block_in(get_block, wx, h as i32, wz)) ==> !is_open(
                    block_in(get_block, wx, (h + 1) as i32, wz),
                )
            },
            None => is_loose(block_in(get_block, wx, h as i32, wz)) ==> !is_open(
                block_in(get_block, wx, (h + 1) as i32, wz),
            ),
        },
{
    lemma_exposed_below(get_block, wx, wz, CHUNK_Y as int);
    assert(is_exposed(get_block, wx, h, wz) <==> is_loose(block_in(get_block, wx, h as i32, wz))
        && is_open(block_in(get_block, wx, (h + 1) as i32, wz)));
}

proof fn lemma_hard_from<F: Fn(i32, i32, i32) -> BlockID>(
    get_block: F,
    wx: i32,
    wz: i32,
    from: int,
    h: int,
)
    requires
        0 <= from,
    ensures
        match hard_from(get_block, wx, wz, from) {
            Some(y) => from <= y < CHUNK_Y && is_hard(block_in(get_block, wx, y, wz)) && (from <= h
                < y ==> !is_hard(block_in(get_block, wx, h as i32, wz))),
            None => from <= h < CHUNK_Y ==> !is_hard(block_in(get_block, wx, h as i32, wz)),
        },
    decreases CHUNK_Y - from,
{
    if from < CHUNK_Y && !is_hard(block_in(get_block, wx, from as i32, wz)) {
        lemma_hard_from(get_block, wx, wz, from + 1, h);
    }
}

/// The ceiling over a corner is a hard block of one of the four columns that touch it, at or above
/// the height asked for, and none of the four has one below it.
pub proof fn law_a_corner_has_the_lowest_ceiling<F: Fn(i32, i32, i32) -> BlockID>(
    get_block: F,
    corner_wx: i32,
    corner_wz: i32,
    min_y: i32,
    wx: i32,
    wz: i32,
    h: int,
)
    requires
        i32::MIN < corner_wx,
        i32::MIN < corner_wz,
        0 <= min_y < CHUNK_Y,
        corner_wx - 1 <= wx <= corner_wx,
        corner_wz - 1 <= wz <= corner_wz,
        min_y <= h < CHUNK_Y,
        is_hard(block_in(get_block, wx, h as i32, wz)),
    ensures
        ceiling_around(get_block, corner_wx, corner_wz, min_y) matches Some(y) && min_y <= y <= h
            && (is_hard(block_in(get_block, corner_wx, y, corner_wz)) || is_hard(
            block_in(get_block, (corner_wx - 1) as i32, y, corner_wz),
        ) || is_hard(block_in(get_block, corner_wx, y, (corner_wz - 1) as i32)) || is_hard(
            block_in(get_block, (corner_wx - 1) as i32, y, (corner_wz - 1) as i32),
        )),
{
    let x1 = (corner_wx - 1) as i32;
    let z1 = (corner_wz - 1) as i32;
    lemma_hard_from(get_block, corner_wx, corner_wz, min_y as int, h);
    lemma_hard_from(get_block, x1, corner_wz, min_y as int, h);
    lemma_hard_from(get_block, corner_wx, z1, min_y as int, h);
    lemma_hard_from(get_block, x1, z1, min_y as int, h);
}

proof fn lemma_samples_around<F: Fn(i32, i32, i32) -> BlockID>(
    get_block: F,
    corner_wx: i32,
    corner_wz: i32,
    prefer: Option<BlockID>,
    n: int,
    k: int,
)
    requires
        0 <= k < n,
    ensures
        ({
            let dx = k / 4 - 2;
            let dz = k % 4 - 2;
            surface_of(get_block, (corner_wx + dx) as i32, (corner_wz + dz) as i32) matches Some(s)
                ==> samples_around(get_block, corner_wx, corner_wz, prefer, n).contains(
                CornerSample {
                    dx2: (2 * dx + 1) as i32,
                    dz2: (2 * dz + 1) as i32,
                    top_y: s.top_y,
                    mixed: prefer is Some && prefer != Some(s.block),
                },
            )
        }),
    decreases n,
{
    let all = samples_around(get_block, corner_wx, corner_wz, prefer, n);
    let rest = samples_around(get_block, corner_wx, corner_wz, prefer, n - 1);
    let dx = k / 4 - 2;
    let dz = k % 4 - 2;
    let found = surface_of(get_block, (corner_wx + dx) as i32, (corner_wz + dz) as i32);
    if k < n - 1 {
        lemma_samples_around(get_block, corner_wx, corner_wz, prefer, n - 1, k);
        if found is Some {
            let x = sample_of(found, dx, dz, prefer)->0;
            let i = choose|i: int| 0 <= i < rest.len() && rest[i] == x;
            assert(all[i] == x);
        }
    } else if found is Some {
        assert(all[rest.len() as int] == sample_of(found, dx, dz, prefer)->0);
    }
}

proof fn lemma_samples_are_few<F: Fn(i32, i32, i32) -> BlockID>(
    get_block: F,
    corner_wx: i32,
    corner_wz: i32,
    prefer: Option<BlockID>,
    n: int,
)
    requires
        0 <= n,
    ensures
        samples_around(get_block, corner_wx, corner_wz, prefer, n).len() <= n,
    decreases n,
{
    if n > 0 {
        lemma_samples_are_few(get_block, corner_wx, corner_wz, prefer, n - 1);
    }
}

/// Every column within two of a corner that has a surface counts for the height there, at its
/// distance from the corner, with the height of its surface, and as mixed exactly when it is of
/// another material than the one preferred.
pub proof fn law_columns_around_a_corner_count<F: Fn(i32, i32, i32) -> BlockID>(
    get_block: F,
    corner_wx: i32,
    corner_wz: i32,
    prefer: Option<BlockID>,
    wx: i32,
    wz: i32,
    s: SmoothColumnSurface,
)
    requires
        corner_wx - 2 <= wx < corner_wx + 2,
        corner_wz - 2 <= wz < corner_wz + 2,
        surface_of(get_block, wx, wz) == Some(s),
    ensures
        samples_around(get_block, corner_wx, corner_wz, prefer, 16).contains(
            CornerSample {
                dx2: (2 * (wx - corner_wx) + 1) as i32,
                dz2: (2 * (wz - corner_wz) + 1) as i32,
                top_y: s.top_y,
                mixed: prefer is Some && prefer != Some(s.block),
            },
        ),
        samples_around(get_block, corner_wx, corner_wz, prefer, 16).len() <= 16,
{
    let k = (wx - corner_wx + 2) * 4 + (wz - corner_wz + 2);
    assert(k / 4 == wx - corner_wx + 2 && k % 4 == wz - corner_wz + 2);
    lemma_samples_around(get_block, corner_wx, corner_wz, prefer, 16, k);
    lemma_samples_are_few(get_block, corner_wx, corner_wz, prefer, 16);
}

/// A column is covered exactly when something hard lies above its highest loose cell.
pub proof fn law_a_covered_column_shows_nothing_loose<F: Fn(i32, i32, i32) -> BlockID>(
    get_block: F,
    wx: i32,
    wz: i32,
    s: int,
)
    requires
        0 <= s < CHUNK_Y,
        is_loose(block_in(get_block, wx, s as i32, wz)),
        forall|y: int|
            s < y < CHUNK_Y ==> !is_loose(#[trigger] block_in(get_block, wx, y as i32, wz)),
    ensures
        is_capped(get_block, wx, wz) <==> exists|h: int|
            s < h < CHUNK_Y && is_hard(#[trigger] block_in(get_block, wx, h as i32, wz)),
{
    assert(no_loose_above(get_block, wx, s, wz));
    if is_capped(get_block, wx, wz) {
        let (t, h) = choose|t: int, h: int|
            0 <= t < h < CHUNK_Y && is_loose(#[trigger] block_in(get_block, wx, t as i32, wz))
                && is_hard(#[trigger] block_in(get_block, wx, h as i32, wz)) && no_loose_above(
                get_block,
                wx,
                t,
                wz,
            );
        if t < s {
            assert(!is_loose(block_in(get_block, wx, s as i32, wz)));
        }
        if t > s {
            assert(!is_loose(block_in(get_block, wx, t as i32, wz)));
        }
    }
}

/// A height within the world stays as it is, and one beyond it becomes the nearest within.
pub proof fn law_heights_are_brought_into_the_world(y: i32)
    ensures
        0 <= world_height(y) < CHUNK_Y,
        0 <= y < CHUNK_Y ==> world_height(y) == y,
        y < 0 ==> world_height(y) == 0,
        y >= CHUNK_Y ==> world_height(y) == CHUNK_Y - 1,
{
}

} // verus!
