use voxweb::block::{
    properties, BlockID, CellFlags, MaterialCell, MaterialRegistry, PlacementKernel,
    StabilityPolicy, VisualClass,
};
use voxweb::chunk::{index, Chunk, ChunkPos, DecodeError, Position, CHUNK_SIZE};
use voxweb::field::{check_version, column_index, Column, FieldChunk};
use voxweb::object::{FreeObject, FreeObjectState};
use voxweb::protocol::{check_consumed, PROTOCOL_VERSION};
use voxweb::surface::{
    column_hard_ceiling, column_has_hard_over_smooth, corner_ceiling, corner_samples,
    find_smooth_column_surface, is_open_for_surface, is_smooth_granular, smooth_stack_bottom,
    solid_column_top_y,
};

const AIR: BlockID = BlockID(BlockID::AIR);
const STONE: BlockID = BlockID(BlockID::STONE);
const DIRT: BlockID = BlockID(BlockID::DIRT);
const GRASS: BlockID = BlockID(BlockID::GRASS);
const SAND: BlockID = BlockID(BlockID::SAND);
const GLASS: BlockID = BlockID(BlockID::GLASS);
const WATER: BlockID = BlockID(BlockID::WATER);

fn world(blocks: &[((i32, i32, i32), BlockID)]) -> impl Fn(i32, i32, i32) -> BlockID + '_ {
    move |x, y, z| {
        blocks
            .iter()
            .find(|((bx, by, bz), _)| *bx == x && *by == y && *bz == z)
            .map(|(_, b)| *b)
            .unwrap_or(AIR)
    }
}

#[test]
fn bedrock_is_world_boundary_material() {
    let props = properties(BlockID(BlockID::BEDROCK));
    assert!(props.solid);
    assert!(!props.transparent);
    assert!(!props.breakable);
    assert!(!props.appears_in_hotbar);
    assert_eq!(props.stability, StabilityPolicy::NoPhysics);
    assert_eq!(props.placement_kernel, PlacementKernel::NoKernel);
}

#[test]
fn stone_bricks_are_creative_hard_material() {
    let props = properties(BlockID(BlockID::STONE_BRICKS));
    assert!(props.solid);
    assert!(props.breakable);
    assert!(props.appears_in_hotbar);
    assert_eq!(props.visual_class, VisualClass::HardBlocky);
    assert_eq!(props.stability, StabilityPolicy::FloatingOnly);
}

#[test]
fn material_cell_empty_and_full_semantics() {
    assert!(MaterialCell::empty().is_empty());
    let cell = MaterialCell::full(SAND);
    assert_eq!(cell.occupancy, u8::MAX);
    assert_eq!(cell.primary, SAND);
    assert!(!cell.is_empty());
    assert_eq!(MaterialCell::from_block_id(AIR), MaterialCell::empty());
    assert_eq!(MaterialCell::from_block_id(SAND).to_block_id(), SAND);
}

#[test]
fn unknown_material_falls_back_to_air_properties() {
    let props = properties(BlockID(999));
    assert_eq!(props.display_name, "空气");
    assert!(!props.appears_in_hotbar);
}

#[test]
fn index_bounds() {
    assert_eq!(index(0, 0, 0), 0);
    assert_eq!(index(15, 255, 15), CHUNK_SIZE - 1);
}

#[test]
fn position_to_chunk_pos() {
    assert_eq!(Position::new(0, 64, 0).to_chunk_pos(), ChunkPos::new(0, 0));
    assert_eq!(Position::new(15, 64, 15).to_chunk_pos(), ChunkPos::new(0, 0));
    assert_eq!(Position::new(16, 64, 0).to_chunk_pos(), ChunkPos::new(1, 0));
    assert_eq!(Position::new(-1, 64, 0).to_chunk_pos(), ChunkPos::new(-1, 0));
    assert_eq!(Position::new(-16, 64, 0).to_chunk_pos(), ChunkPos::new(-1, 0));
    assert_eq!(Position::new(-17, 64, 0).to_chunk_pos(), ChunkPos::new(-2, 0));
}

#[test]
fn local_index_roundtrip() {
    let pos = Position::new(5, 128, 7);
    let idx = pos.local_index().unwrap();
    assert_eq!(idx, index(5, 128, 7));
}

#[test]
fn chunk_empty_all_air() {
    let chunk = Chunk::empty();
    for i in 0..CHUNK_SIZE {
        assert_eq!(chunk.blocks[i], AIR);
    }
}

#[test]
fn chunk_get_set() {
    let mut chunk = Chunk::empty();
    chunk.set(3, 100, 5, STONE);
    assert_eq!(chunk.get(3, 100, 5), STONE);
    assert_eq!(chunk.get(3, 100, 6), AIR);
}

#[test]
fn empty_field_chunk_roundtrips_to_empty_chunk() {
    let field = FieldChunk::empty();
    let chunk = field.to_chunk();
    assert!(chunk.blocks.iter().all(|b| *b == AIR));
}

#[test]
fn chunk_to_field_to_chunk_roundtrip_preserves_primary_materials() {
    let mut chunk = Chunk::empty();
    chunk.set(1, 2, 3, STONE);
    chunk.set(1, 3, 3, STONE);
    chunk.set(1, 4, 3, DIRT);
    chunk.set(8, 80, 8, SAND);

    let field = FieldChunk::from_chunk(&chunk);
    let restored = field.to_chunk();

    assert_eq!(restored, chunk);
    assert_eq!(field.get(1, 2, 3), MaterialCell::full(STONE));
    assert_eq!(field.get(1, 4, 3), MaterialCell::full(DIRT));
}

#[test]
fn natural_columns_are_span_encoded() {
    let mut chunk = Chunk::empty();
    for y in 0..64 {
        chunk.set(0, y, 0, STONE);
    }
    for y in 64..68 {
        chunk.set(0, y, 0, DIRT);
    }

    let field = FieldChunk::from_chunk(&chunk);
    let column = &field.columns[column_index(0, 0)];

    assert!(!column.is_dense());
    assert_eq!(column.span_count(), 2);
}

#[test]
fn editing_span_column_degrades_to_dense() {
    let mut field = FieldChunk::empty();
    field.set(2, 10, 2, MaterialCell::full(GLASS));

    let column = &field.columns[column_index(2, 2)];
    assert!(column.is_dense());
    assert_eq!(field.get(2, 10, 2), MaterialCell::full(GLASS));
}

#[test]
fn hard_over_smooth_is_detected() {
    let blocks = [((0, 10, 0), SAND), ((0, 11, 0), STONE)];
    let get = world(&blocks);
    assert!(column_has_hard_over_smooth(&get, 0, 0));
    assert!(column_hard_ceiling(&get, 0, 0, 9).is_some_and(|y| (y as f32 - 11.0).abs() < 1e-4));
}

#[test]
fn protocol_version_is_ten() {
    assert_eq!(PROTOCOL_VERSION, 10);
}

#[test]
fn bytes_left_over_are_refused_with_their_number() {
    assert_eq!(check_consumed(7, 7), Ok(()));
    assert_eq!(
        check_consumed(7, 9),
        Err("trailing bytes after message: consumed 7, total 9".to_string())
    );
}

#[test]
fn materials_have_their_exact_numbers() {
    let stone = properties(STONE);
    assert!(stone.solid && !stone.transparent);
    assert_eq!(stone.display_name, properties(STONE).display_name);
    assert_eq!(MaterialRegistry.properties(STONE).display_name, stone.display_name);
    assert!(!properties(AIR).solid);
    assert!(properties(WATER).transparent);
    assert!(!properties(WATER).solid);
    assert!(BlockID(BlockID::STONE).is_solid());
    assert!(!BlockID(BlockID::AIR).is_solid());
    assert!(WATER.is_solid());
    assert!(BlockID(999).is_solid());
    assert!(!properties(BlockID(999)).solid);
}

#[test]
fn cell_flags_are_single_bits() {
    let both = CellFlags(CellFlags::GENERATED | CellFlags::STABLE_HINT);
    assert!(both.contains(CellFlags::GENERATED));
    assert!(both.contains(CellFlags::STABLE_HINT));
    assert!(!both.contains(CellFlags::DIRTY));
    assert!(!CellFlags::empty().contains(CellFlags::GENERATED));
}

#[test]
fn chunk_keys_are_one_to_one() {
    let far = [
        ChunkPos::new(0, 0),
        ChunkPos::new(-1, 0),
        ChunkPos::new(0, -1),
        ChunkPos::new(i32::MIN, i32::MAX),
        ChunkPos::new(i32::MAX, i32::MIN),
        ChunkPos::new(7, -9),
    ];
    for a in far {
        assert_eq!(ChunkPos::from_key(a.key()), a);
        for b in far {
            assert_eq!(a.key() == b.key(), a == b);
        }
    }
    assert_eq!(ChunkPos::new(i32::MIN, i32::MIN).key(), 0);
    assert_eq!(ChunkPos::new(i32::MAX, 3).offset(1, -4), ChunkPos::new(i32::MIN, -1));
}

#[test]
fn positions_outside_the_height_of_the_world_have_no_index() {
    assert_eq!(Position::new(0, -1, 0).local_index(), None);
    assert_eq!(Position::new(0, 256, 0).local_index(), None);
    assert_eq!(Position::new(-1, 255, -1).local_index(), Some(index(15, 255, 15)));
}

#[test]
fn columns_keep_what_is_written_to_them() {
    let mut cells = vec![MaterialCell::empty(); 256];
    for y in 3..9 {
        cells[y] = MaterialCell::full(SAND);
    }
    cells[200] = MaterialCell::full(GLASS);
    let mut column = Column::from_cells(&cells);
    assert_eq!(column.span_count(), 2);
    for y in 0..256 {
        assert_eq!(column.get(y), cells[y]);
    }
    column.set(5, MaterialCell::full(STONE));
    assert!(column.is_dense());
    assert_eq!(column.get(5), MaterialCell::full(STONE));
    assert_eq!(column.get(4), MaterialCell::full(SAND));
    assert_eq!(Column::empty().span_count(), 0);
}

#[test]
fn surfaces_are_found_from_above() {
    let blocks = [
        ((0, 4, 0), STONE),
        ((0, 5, 0), SAND),
        ((0, 6, 0), DIRT),
        ((0, 7, 0), GRASS),
        ((0, 20, 0), SAND),
        ((0, 21, 0), STONE),
        ((0, 30, 0), WATER),
    ];
    let get = world(&blocks);
    let s = find_smooth_column_surface(&get, 0, 0).unwrap();
    assert_eq!((s.top_y, s.cell_y, s.block), (8, 7, GRASS));
    assert_eq!(find_smooth_column_surface(&get, 1, 0), None);
    assert_eq!(smooth_stack_bottom(&get, 0, 7, 0), 5);
    let below_seven = |x: i32, y: i32, z: i32| {
        assert!(x == 0 && (0..7).contains(&y) && z == 0);
        get(x, y, z)
    };
    assert_eq!(smooth_stack_bottom(&below_seven, 0, 7, 0), 5);
    assert_eq!(smooth_stack_bottom(&below_seven, 0, 0, 0), 0);
    assert_eq!(smooth_stack_bottom(&below_seven, 9, -4, 9), -4);
    assert_eq!(smooth_stack_bottom(&|_, _, _| SAND, 0, 7, 0), 0);
    assert_eq!(solid_column_top_y(&get, 0, 0, 255), Some(22));
    assert_eq!(solid_column_top_y(&get, 0, 0, 20), Some(5));
    assert_eq!(solid_column_top_y(&get, 0, 0, 3), None);
    assert_eq!(column_hard_ceiling(&get, 0, 0, 8), Some(21));
    assert_eq!(column_hard_ceiling(&get, 0, 0, 22), None);
    assert!(column_has_hard_over_smooth(&get, 0, 0));
    assert!(is_smooth_granular(SAND) && !is_smooth_granular(STONE));
    assert!(is_open_for_surface(AIR) && is_open_for_surface(GLASS));
    assert!(!is_open_for_surface(SAND));
}

#[test]
fn corners_see_the_columns_around_them() {
    let blocks = [((0, 10, 0), SAND), ((1, 8, 0), DIRT), ((0, 11, -1), STONE), ((3, 9, 0), SAND)];
    let get = world(&blocks);
    let samples = corner_samples(&get, 1, 0, Some(SAND));
    let seen: Vec<(i32, i32, i32, bool)> =
        samples.iter().map(|s| (s.dx2, s.dz2, s.top_y, s.mixed)).collect();
    assert_eq!(seen, vec![(-1, 1, 11, false), (1, 1, 9, true)]);
    assert!(corner_samples(&get, 1, 0, None).iter().all(|s| !s.mixed));
    assert_eq!(corner_ceiling(&get, 1, 0, 5), Some(11));
    assert_eq!(corner_ceiling(&get, 1, 0, 12), None);
}

#[test]
fn bodies_are_put_back_where_they_were() {
    let cells = vec![
        (Position::new(3, 10, -4), MaterialCell::full(STONE)),
        (Position::new(4, 10, -4), MaterialCell::full(DIRT)),
        (Position::new(4, 12, -3), MaterialCell::full(STONE)),
    ];
    let body = FreeObject::dynamic_from_cells(7, &cells).unwrap();
    assert_eq!(body.id, 7);
    assert!(!body.granular);
    assert_eq!(body.sample_bounds(), Some(([0, 0, 0], [1, 2, 1])));
    assert_eq!(body.cells_at_position(Position::new(3, 10, -4)), cells);
    assert_eq!(body.cells_at_current_position(), cells);
    assert_eq!(
        body.cells_at_position(Position::new(0, 0, 0))[2].0,
        Position::new(1, 2, 1)
    );
    assert!(FreeObject::dynamic_grain_from_cells(8, &cells).unwrap().granular);
    assert!(FreeObject::dynamic_from_cells(9, &[]).is_none());
    let landed = FreeObject::projected_from_cells(10, &cells, -3).unwrap();
    assert_eq!(landed.state, FreeObjectState::Projected);
    assert_eq!(landed.origin.y, body.origin.y - 3);
    let lower: Vec<(Position, MaterialCell)> =
        cells.iter().map(|c| (Position::new(c.0.x, c.0.y - 3, c.0.z), c.1)).collect();
    assert_eq!(landed.cells_at_current_position(), lower);
    assert_eq!(landed.corner.y, body.corner.y - 3);
    assert_eq!(landed.samples, body.samples);
}

#[test]
fn stored_fields_are_checked() {
    assert_eq!(check_version(&[]), Err(DecodeError::LengthMismatch(0)));
    assert_eq!(
        check_version(&[1, 9]),
        Err(DecodeError::VersionMismatch { found: 1, expected: 2 })
    );
    assert_eq!(check_version(&[2]), Ok(()));
    let mut field = FieldChunk::empty();
    assert_eq!(field.check_shape(), Ok(()));
    field.columns[7] = Column::Dense(vec![MaterialCell::empty(); 12]);
    assert_eq!(field.check_shape(), Err(DecodeError::LengthMismatch(12)));
    field.columns.pop();
    assert_eq!(field.check_shape(), Err(DecodeError::LengthMismatch(255)));
}
