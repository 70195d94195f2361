use dd_terrain::chunk::{BlockData, BlockPosition, Chunk, RigidBlockRecord};
use dd_terrain::chunk_position::ChunkPosition;
use dd_terrain::common::BlockType;

fn origin() -> ChunkPosition {
    ChunkPosition { region_x: 0, region_z: 0, chunk_x: 0, chunk_z: 0 }
}

fn at(x: i64, y: i64, z: i64, material: BlockType) -> BlockData {
    BlockData { offset: BlockPosition { x, y, z }, material }
}

#[test]
fn a_new_chunk_is_empty() {
    let chunk = Chunk::new(origin());
    assert_eq!(chunk.position, origin());
    assert!(chunk.surface_blocks.is_empty());
    assert!(chunk.get_rigid_blocks().is_empty());
    assert!(chunk.get_block_data().is_empty());
    for (x, z) in [(0, 0), (15, 15), (7, 3)] {
        for y in [-64, 0, 319] {
            assert_eq!(chunk.get_block(x, y, z), BlockType::Air);
        }
    }
}

#[test]
fn push_block_fills_one_place() {
    let mut chunk = Chunk::new(origin());
    chunk.push_block(3, 4, 10, BlockType::Stone);
    assert_eq!(chunk.get_block(3, 10, 4), BlockType::Stone);
    assert_eq!(chunk.get_block(4, 10, 3), BlockType::Air);
    assert_eq!(chunk.get_block(3, 11, 4), BlockType::Air);
    assert_eq!(chunk.get_tower(3, 4).get_block_at_y(10), BlockType::Stone);
    assert!(chunk.get_rigid_blocks().is_empty());
}

#[test]
fn a_rigid_block_is_recorded_where_it_lies_in_the_world() {
    let position = ChunkPosition { region_x: -1, region_z: 2, chunk_x: 31, chunk_z: 1 };
    let mut chunk = Chunk::new(position);
    chunk.push_block(5, 6, -7, BlockType::Wood);
    chunk.push_block(5, 6, -6, BlockType::Stone);
    chunk.push_block(0, 15, 100, BlockType::Wood);
    let expected = vec![
        RigidBlockRecord {
            position: BlockPosition { x: -16 + 5, y: -7, z: 65 * 16 + 6 },
            material: BlockType::Wood,
        },
        RigidBlockRecord {
            position: BlockPosition { x: -16, y: 100, z: 65 * 16 + 15 },
            material: BlockType::Wood,
        },
    ];
    assert_eq!(*chunk.get_rigid_blocks(), expected);
    assert_eq!(
        chunk.get_rigid_block_data(),
        vec![at(-11, -7, 1046, BlockType::Wood), at(-16, 100, 1055, BlockType::Wood)]
    );
}

#[test]
fn block_data_lists_columns_with_x_running_slowest() {
    let position = ChunkPosition { region_x: 0, region_z: 0, chunk_x: 1, chunk_z: 2 };
    let mut chunk = Chunk::new(position);
    chunk.push_block(2, 1, 5, BlockType::Dirt);
    chunk.push_block(1, 3, 9, BlockType::Sand);
    chunk.push_block(1, 3, 8, BlockType::Stone);
    chunk.push_block(1, 0, 7, BlockType::Ore);
    assert_eq!(
        chunk.get_block_data(),
        vec![
            at(17, 7, 32, BlockType::Ore),
            at(17, 8, 35, BlockType::Stone),
            at(17, 9, 35, BlockType::Sand),
            at(18, 5, 33, BlockType::Dirt),
        ]
    );
}

#[test]
fn enumerate_blocks_keeps_to_the_range_and_to_local_places() {
    let position = ChunkPosition { region_x: 3, region_z: 3, chunk_x: 1, chunk_z: 2 };
    let mut chunk = Chunk::new(position);
    chunk.push_block(2, 1, 5, BlockType::Dirt);
    chunk.push_block(2, 1, 6, BlockType::Dirt);
    chunk.push_block(2, 1, 7, BlockType::Grass);
    chunk.push_block(3, 0, 6, BlockType::Sand);
    assert_eq!(
        chunk.enumerate_blocks(6, 8),
        vec![
            (BlockPosition { x: 3, y: 6, z: 0 }, BlockType::Sand),
            (BlockPosition { x: 2, y: 6, z: 1 }, BlockType::Dirt),
            (BlockPosition { x: 2, y: 7, z: 1 }, BlockType::Grass),
        ]
    );
    assert!(chunk.enumerate_blocks(8, 6).is_empty());
    assert_eq!(chunk.enumerate_blocks(-64, 320).len(), 4);
}

#[test]
fn a_lone_block_off_the_rim_is_surface() {
    let mut chunk = Chunk::new(origin());
    chunk.push_block(5, 6, 20, BlockType::Stone);
    chunk.build_surface();
    assert_eq!(chunk.surface_blocks, vec![at(5, 20, 6, BlockType::Stone)]);
}

#[test]
fn a_block_with_six_visible_neighbours_is_no_surface() {
    let mut chunk = Chunk::new(origin());
    for x in 4..7 {
        for z in 4..7 {
            for y in 10..13 {
                chunk.push_block(x, z, y, BlockType::Stone);
            }
        }
    }
    chunk.build_surface();
    assert_eq!(chunk.surface_blocks.len(), 26);
    assert!(!chunk.surface_blocks.contains(&at(5, 11, 5, BlockType::Stone)));
    assert!(chunk.surface_blocks.contains(&at(4, 11, 5, BlockType::Stone)));
    // Row after row, x running fastest, each column from its lowest block up.
    assert_eq!(chunk.surface_blocks[0], at(4, 10, 4, BlockType::Stone));
    assert_eq!(chunk.surface_blocks[1], at(4, 11, 4, BlockType::Stone));
    assert_eq!(chunk.surface_blocks[3], at(5, 10, 4, BlockType::Stone));
    assert_eq!(chunk.surface_blocks[25], at(6, 12, 6, BlockType::Stone));
}

#[test]
fn every_visible_block_on_the_rim_is_surface() {
    let mut chunk = Chunk::new(origin());
    for x in 0..3 {
        for z in 0..3 {
            for y in 10..13 {
                chunk.push_block(x, z, y, BlockType::Dirt);
            }
        }
    }
    chunk.build_surface();
    // Of the four columns off the rim, the one at (1, 1) is shut in on all
    // sides and shows its lowest and highest block only; the five columns on
    // the rim count whole.
    assert_eq!(chunk.surface_blocks.len(), 2 + 3 * 3 + 5 * 3);
    assert!(!chunk.surface_blocks.contains(&at(1, 11, 1, BlockType::Dirt)));
    assert!(chunk.surface_blocks.contains(&at(0, 11, 0, BlockType::Dirt)));
    // First the columns off the rim, then those on it by their index.
    assert_eq!(chunk.surface_blocks[0], at(1, 10, 1, BlockType::Dirt));
    assert_eq!(chunk.surface_blocks[1], at(1, 12, 1, BlockType::Dirt));
    assert_eq!(chunk.surface_blocks[2], at(2, 10, 1, BlockType::Dirt));
    assert_eq!(chunk.surface_blocks[5], at(1, 10, 2, BlockType::Dirt));
    assert_eq!(chunk.surface_blocks[11], at(0, 10, 0, BlockType::Dirt));
    assert_eq!(chunk.surface_blocks[14], at(1, 10, 0, BlockType::Dirt));
    assert_eq!(chunk.surface_blocks[25], at(0, 12, 2, BlockType::Dirt));
}

#[test]
fn the_lowest_and_the_highest_block_are_open_below_and_above() {
    let mut chunk = Chunk::new(origin());
    chunk.push_block(8, 8, -64, BlockType::Stone);
    chunk.push_block(8, 8, 319, BlockType::Stone);
    chunk.push_block(8, 8, -63, BlockType::Stone);
    chunk.push_block(8, 8, 318, BlockType::Stone);
    chunk.push_block(0, 8, -64, BlockType::Sand);
    chunk.push_block(0, 8, 319, BlockType::Sand);
    chunk.build_surface();
    assert_eq!(
        chunk.surface_blocks,
        vec![
            at(8, -64, 8, BlockType::Stone),
            at(8, -63, 8, BlockType::Stone),
            at(8, 318, 8, BlockType::Stone),
            at(8, 319, 8, BlockType::Stone),
            at(0, -64, 8, BlockType::Sand),
            at(0, 319, 8, BlockType::Sand),
        ]
    );
}

#[test]
fn a_block_at_the_bottom_is_surface_even_when_shut_in_from_the_sides() {
    let mut chunk = Chunk::new(origin());
    for x in 4..7 {
        for z in 4..7 {
            for y in -64..-61 {
                chunk.push_block(x, z, y, BlockType::Stone);
            }
        }
    }
    chunk.build_surface();
    // Of the column in the middle, the lowest block is open below and the
    // third is open above; the second touches a block on every face.
    assert!(chunk.surface_blocks.contains(&at(5, -64, 5, BlockType::Stone)));
    assert!(!chunk.surface_blocks.contains(&at(5, -63, 5, BlockType::Stone)));
    assert!(chunk.surface_blocks.contains(&at(5, -62, 5, BlockType::Stone)));
    assert_eq!(chunk.surface_blocks.len(), 26);
}

#[test]
fn a_block_at_the_top_is_surface_even_when_shut_in_from_the_sides() {
    let mut chunk = Chunk::new(origin());
    for x in 4..7 {
        for z in 4..7 {
            for y in 317..320 {
                chunk.push_block(x, z, y, BlockType::Stone);
            }
        }
    }
    chunk.build_surface();
    assert!(chunk.surface_blocks.contains(&at(5, 319, 5, BlockType::Stone)));
    assert!(!chunk.surface_blocks.contains(&at(5, 318, 5, BlockType::Stone)));
    assert!(chunk.surface_blocks.contains(&at(5, 317, 5, BlockType::Stone)));
    assert_eq!(chunk.surface_blocks.len(), 26);
}

#[test]
fn a_surface_block_is_recorded_once() {
    let mut chunk = Chunk::new(origin());
    for x in 0..16 {
        for z in 0..16 {
            for y in [-64, -63, 5, 6, 319] {
                chunk.push_block(x, z, y, BlockType::Dirt);
            }
        }
    }
    chunk.build_surface();
    let mut places: Vec<(i64, i64, i64)> = chunk
        .surface_blocks
        .iter()
        .map(|block| (block.offset.x, block.offset.y, block.offset.z))
        .collect();
    let recorded = places.len();
    places.sort();
    places.dedup();
    assert_eq!(places.len(), recorded);
    // Every block is open on some face: each column is a run of two at the
    // bottom, a run of two in the middle and a single block at the top.
    assert_eq!(recorded, 256 * 5);
}

#[test]
fn surface_blocks_lie_where_the_chunk_lies() {
    let position = ChunkPosition { region_x: -1, region_z: 0, chunk_x: 30, chunk_z: 3 };
    let mut chunk = Chunk::new(position);
    chunk.push_block(1, 1, 0, BlockType::Grass);
    chunk.push_block(15, 15, 1, BlockType::Water);
    chunk.build_surface();
    assert_eq!(
        chunk.surface_blocks,
        vec![at(-32 + 1, 0, 48 + 1, BlockType::Grass), at(-32 + 15, 1, 48 + 15, BlockType::Water)]
    );
}

#[test]
fn build_surface_adds_to_what_is_there() {
    let mut chunk = Chunk::new(origin());
    chunk.push_block(5, 5, 5, BlockType::Stone);
    chunk.build_surface();
    chunk.build_surface();
    assert_eq!(
        chunk.surface_blocks,
        vec![at(5, 5, 5, BlockType::Stone), at(5, 5, 5, BlockType::Stone)]
    );
}

#[test]
fn create_keeps_place_and_material() {
    let offset = BlockPosition { x: 1, y: -2, z: 3 };
    assert_eq!(BlockData::create(offset, BlockType::Lava), at(1, -2, 3, BlockType::Lava));
}
